//! The OpenAI-compatible chat completions API: endpoint, request body,
//! response and the server-sent event stream decoded into stream events.
use vstd::prelude::*;
use crate::tools::{lossy_text, utf8_lossy};
use crate::json::{
    arr_get, as_str, json_as_array, json_as_str, json_at, json_clone, json_empty_object, json_get, json_index,
    json_object, json_parse, json_error_text, json_u64, json_bool, JsonNum, json_text, json_to_text, json_array, json_string, json_tree, map_of, entries_view, keys_distinct, has_key,
    obj_get, obj_index, parse_json, parse_json_reporting, push_entry, str_field, str_member,
    trees, JsonTree,
};
use crate::llm::{
    events_view, opt_view, EventView, StreamEvent, LlmRequest, blocks_view, messages_view, BlockView, ContentBlock, ContentView, LlmResponse, Message,
    MessageContent, MessageView, Role,
};
use crate::tasks::slice_eq;
use crate::text::{
    after_prefix, find, find_chars, has_prefix, occurs_at, lemma_find_extend, starts_with, strip_prefix_chars, lemma_find_from, slice_range, trim, trim_chars,
    char_seqs, chars_of, join, join_chars, push_str, string_of, trim_end_char, trim_end_chars,
};

verus! {

/// The chat completions endpoint under a base URL (trailing slashes dropped).
pub open spec fn completions_url(base: Seq<char>) -> Seq<char> {
    trim_end_char(base, '/') + "/chat/completions"@
}

/// URL of the chat completions endpoint.
pub fn openai_url(base_url: &str) -> (r: String)
    ensures
        r@ == completions_url(base_url@),
{
    let b = chars_of(base_url);
    let mut out = trim_end_chars(b.as_slice(), '/');
    push_str(&mut out, "/chat/completions");
    string_of(out.as_slice())
}

/// The tree held by an optional member, or a default.
pub open spec fn or_tree(o: Option<JsonTree>, d: JsonTree) -> JsonTree {
    match o {
        Some(t) => t,
        None => d,
    }
}

/// The text held by an optional string, or a default.
pub open spec fn or_text(o: Option<Seq<char>>, d: Seq<char>) -> Seq<char> {
    match o {
        Some(t) => t,
        None => d,
    }
}

/// A tool definition (`name`, `description`, `input_schema`) in the OpenAI
/// function-tool shape.
pub open spec fn openai_tool(t: JsonTree) -> JsonTree {
    JsonTree::Obj(
        Map::empty().insert("type"@, JsonTree::Str("function"@)).insert(
            "function"@,
            JsonTree::Obj(
                Map::empty().insert("name"@, obj_index(t, "name"@)).insert(
                    "description"@,
                    or_tree(obj_get(t, "description"@), JsonTree::Str(Seq::empty())),
                ).insert(
                    "parameters"@,
                    or_tree(obj_get(t, "input_schema"@), JsonTree::Obj(Map::empty())),
                ),
            ),
        ),
    )
}

/// One tool definition in the OpenAI shape.
fn openai_tool_value(t: &serde_json::Value) -> (r: serde_json::Value)
    ensures
        json_tree(r) == openai_tool(json_tree(*t)),
{
    proof {
        reveal_strlit("");
        assert(""@ =~= Seq::<char>::empty());
    }
    let mut f: Vec<(String, serde_json::Value)> = Vec::new();
    proof {
        assert(entries_view(f@) =~= Seq::empty());
    }
    proof {
        reveal_strlit("name");
        reveal_strlit("description");
        reveal_strlit("parameters");
        reveal_strlit("type");
        reveal_strlit("function");
        assert("name"@.len() != "description"@.len());
        assert("name"@.len() != "parameters"@.len());
        assert("name"@ != "type"@) by {
            assert("name"@[0] != "type"@[0]);
        }
        assert("name"@.len() != "function"@.len());
        assert("description"@.len() != "parameters"@.len());
        assert("description"@.len() != "type"@.len());
        assert("description"@.len() != "function"@.len());
        assert("parameters"@.len() != "type"@.len());
        assert("parameters"@.len() != "function"@.len());
        assert("type"@.len() != "function"@.len());
    }
    push_entry(&mut f, "name", json_clone(json_index(t, "name")));
    let d = match json_get(t, "description") {
        Some(d) => json_clone(d),
        None => json_string(""),
    };
    push_entry(&mut f, "description", d);
    let p = match json_get(t, "input_schema") {
        Some(p) => json_clone(p),
        None => json_empty_object(),
    };
    push_entry(&mut f, "parameters", p);
    let mut e: Vec<(String, serde_json::Value)> = Vec::new();
    proof {
        assert(entries_view(e@) =~= Seq::empty());
    }
    push_entry(&mut e, "type", json_string("function"));
    push_entry(&mut e, "function", json_object(f));
    json_object(e)
}

/// Converts tool definitions to the OpenAI function-tool shape.
pub fn to_openai_tools(tools: &Vec<serde_json::Value>) -> (r: Vec<serde_json::Value>)
    ensures
        trees(r@) == trees(tools@).map_values(|t: JsonTree| openai_tool(t)),
{
    let mut r: Vec<serde_json::Value> = Vec::new();
    let mut i: usize = 0;
    while i < tools.len()
        invariant
            i <= tools@.len(),
            trees(r@) == trees(tools@.take(i as int)).map_values(|t: JsonTree| openai_tool(t)),
        decreases tools@.len() - i,
    {
        let v = openai_tool_value(&tools[i]);
        let ghost before = r@;
        r.push(v);
        proof {
            assert(trees(r@) =~= trees(before).push(json_tree(v)));
            assert(tools@.take(i + 1) =~= tools@.take(i as int).push(tools@[i as int]));
            assert(trees(tools@.take(i + 1)).map_values(|t: JsonTree| openai_tool(t)) =~= trees(
                tools@.take(i as int),
            ).map_values(|t: JsonTree| openai_tool(t)).push(openai_tool(json_tree(tools@[i as int]))));
        }
        i = i + 1;
    }
    proof {
        assert(tools@.take(i as int) =~= tools@);
    }
    r
}

/// The stop reason reported for an OpenAI `finish_reason`.
pub open spec fn stop_reason_of(r: Seq<char>) -> Seq<char> {
    if r == "stop"@ {
        "end_turn"@
    } else if r == "tool_calls"@ {
        "tool_use"@
    } else {
        r
    }
}

/// The tree parsed from a text, or `{}` when it does not parse.
pub open spec fn parsed_or_empty(j: Seq<char>) -> JsonTree {
    match json_parse(j) {
        Some(t) => t,
        None => JsonTree::Obj(Map::empty()),
    }
}

/// The tool-use block of one entry of a response's `tool_calls`.
pub open spec fn response_tool_call(tc: JsonTree) -> BlockView {
    let f = obj_index(tc, "function"@);
    BlockView::ToolUse(
        or_text(as_str(obj_index(tc, "id"@)), Seq::empty()),
        or_text(as_str(obj_index(f, "name"@)), Seq::empty()),
        parsed_or_empty(or_text(as_str(obj_index(f, "arguments"@)), "{}"@)),
    )
}

/// A block for a non-empty optional text.
pub open spec fn nonempty_block(o: Option<Seq<char>>, thinking: bool) -> Seq<BlockView> {
    match o {
        Some(t) => if t.len() > 0 {
            seq![if thinking { BlockView::Thinking(t) } else { BlockView::Text(t) }]
        } else {
            Seq::empty()
        },
        None => Seq::empty(),
    }
}

/// The tool-use blocks of a response message.
pub open spec fn response_tool_calls(message: JsonTree) -> Seq<BlockView> {
    match obj_get(message, "tool_calls"@) {
        Some(JsonTree::Arr(tcs)) => tcs.map_values(|tc: JsonTree| response_tool_call(tc)),
        _ => Seq::empty(),
    }
}

/// The content blocks of a response message: its reasoning, its text, then
/// its tool calls.
pub open spec fn response_blocks(message: JsonTree) -> Seq<BlockView> {
    nonempty_block(str_member(message, "reasoning_content"@), true) + nonempty_block(
        str_member(message, "content"@),
        false,
    ) + response_tool_calls(message)
}

/// The message of a response without choices.
pub open spec fn no_choices_msg() -> Seq<char> {
    "No choices in OpenAI response"@
}

/// What a chat completion response body gives: the content blocks and stop
/// reason of its first choice, or an error message.
pub open spec fn openai_response(body: Seq<char>) -> Result<
    (Seq<BlockView>, Option<Seq<char>>),
    Seq<char>,
> {
    match json_parse(body) {
        None => Err(json_error_text(body)),
        Some(v) => match obj_get(v, "choices"@) {
            None => Err(no_choices_msg()),
            Some(cs) => match arr_get(cs, 0) {
                None => Err(no_choices_msg()),
                Some(choice) => Ok(
                    (
                        response_blocks(obj_index(choice, "message"@)),
                        match str_member(choice, "finish_reason"@) {
                            Some(r) => Some(stop_reason_of(r)),
                            None => None,
                        },
                    ),
                ),
            },
        },
    }
}

/// The tool-use block of one `tool_calls` entry.
fn response_tool_call_block(tc: &serde_json::Value) -> (b: ContentBlock)
    ensures
        b@ == response_tool_call(json_tree(*tc)),
{
    proof {
        reveal_strlit("");
        reveal_strlit("{}");
        assert(""@ =~= Seq::<char>::empty());
    }
    let id = match json_as_str(json_index(tc, "id")) {
        Some(s) => s.to_owned(),
        None => "".to_owned(),
    };
    let f = json_index(tc, "function");
    let name = match json_as_str(json_index(f, "name")) {
        Some(s) => s.to_owned(),
        None => "".to_owned(),
    };
    let args = match json_as_str(json_index(f, "arguments")) {
        Some(s) => s.to_owned(),
        None => "{}".to_owned(),
    };
    let input = match parse_json(args.as_str()) {
        Some(v) => v,
        None => json_empty_object(),
    };
    ContentBlock::ToolUse { id, name, input }
}

/// Appends a block for a non-empty text.
fn push_nonempty(out: &mut Vec<ContentBlock>, o: Option<String>, thinking: bool)
    ensures
        blocks_view(final(out)@) == blocks_view(old(out)@) + nonempty_block(
            match o {
                Some(t) => Some(t@),
                None => None,
            },
            thinking,
        ),
{
    match o {
        Some(t) => {
            if t.as_str().unicode_len() > 0 {
                let b = if thinking {
                    ContentBlock::Thinking { thinking: t }
                } else {
                    ContentBlock::Text { text: t }
                };
                let ghost before = out@;
                out.push(b);
                proof {
                    assert(blocks_view(out@) =~= blocks_view(before).push(b@));
                }
            } else {
                proof {
                    assert(blocks_view(out@) =~= blocks_view(out@) + Seq::<BlockView>::empty());
                }
            }
        },
        None => {
            proof {
                assert(blocks_view(out@) =~= blocks_view(out@) + Seq::<BlockView>::empty());
            }
        },
    }
}

/// Parses a chat completion response body: the first choice's reasoning, text
/// and tool calls become content blocks, and its `finish_reason` the stop reason.
pub fn parse_openai_response(body: &str) -> (r: Result<LlmResponse, String>)
    ensures
        match (r, openai_response(body@)) {
            (Ok(resp), Ok((blocks, stop))) => blocks_view(resp.content@) == blocks && match resp.stop_reason {
                Some(s) => stop == Some(s@),
                None => stop is None,
            },
            (Err(e), Err(m)) => e@ == m,
            _ => false,
        },
{
    let v = match parse_json_reporting(body) {
        Ok(v) => v,
        Err(e) => {
            return Err(e);
        },
    };
    let choice = match json_get(&v, "choices") {
        Some(cs) => match json_at(cs, 0) {
            Some(c) => c,
            None => {
                return Err("No choices in OpenAI response".to_owned());
            },
        },
        None => {
            return Err("No choices in OpenAI response".to_owned());
        },
    };
    let message = json_index(choice, "message");
    let mut content: Vec<ContentBlock> = Vec::new();
    proof {
        assert(blocks_view(content@) =~= Seq::<BlockView>::empty());
    }
    push_nonempty(&mut content, str_field(message, "reasoning_content"), true);
    push_nonempty(&mut content, str_field(message, "content"), false);
    let ghost base = blocks_view(content@);
    match json_get(message, "tool_calls") {
        Some(tcv) => match json_as_array(tcv) {
            Some(tcs) => {
                let ghost items = json_tree(*tcv)->Arr_0;
                let mut i: usize = 0;
                proof {
                    assert(items.take(0).map_values(|tc: JsonTree| response_tool_call(tc))
                        =~= Seq::<BlockView>::empty());
                }
                while i < tcs.len()
                    invariant
                        i <= tcs@.len(),
                        tcs@.len() == items.len(),
                        forall|j: int| 0 <= j < tcs@.len() ==> json_tree(#[trigger] tcs@[j]) == items[j],
                        blocks_view(content@) == base + items.take(i as int).map_values(
                            |tc: JsonTree| response_tool_call(tc),
                        ),
                    decreases tcs@.len() - i,
                {
                    let b = response_tool_call_block(&tcs[i]);
                    let ghost before = content@;
                    content.push(b);
                    proof {
                        assert(blocks_view(content@) =~= blocks_view(before).push(b@));
                        assert(items.take(i + 1).map_values(|tc: JsonTree| response_tool_call(tc))
                            =~= items.take(i as int).map_values(|tc: JsonTree| response_tool_call(tc)).push(
                            response_tool_call(items[i as int]),
                        ));
                    }
                    i = i + 1;
                }
                proof {
                    assert(items.take(i as int) =~= items);
                }
            },
            None => {
                proof {
                    assert(base =~= base + Seq::<BlockView>::empty());
                }
            },
        },
        None => {
            proof {
                assert(base =~= base + Seq::<BlockView>::empty());
            }
        },
    }
    let stop_reason = match str_field(choice, "finish_reason") {
        Some(r) => {
            let rc = chars_of(r.as_str());
            let stop = chars_of("stop");
            let tool_calls = chars_of("tool_calls");
            proof {
                reveal_strlit("stop");
                reveal_strlit("tool_calls");
            }
            if slice_eq(rc.as_slice(), stop.as_slice()) {
                Some("end_turn".to_owned())
            } else if slice_eq(rc.as_slice(), tool_calls.as_slice()) {
                Some("tool_use".to_owned())
            } else {
                Some(r)
            }
        },
        None => None,
    };
    Ok(LlmResponse { content, stop_reason })
}

/// The role name of the wire format.
pub open spec fn role_name(r: Role) -> Seq<char> {
    match r {
        Role::User => "user"@,
        Role::Assistant => "assistant"@,
    }
}

/// A `{"role": .., "content": ..}` message.
pub open spec fn role_content(role: Seq<char>, content: Seq<char>) -> JsonTree {
    JsonTree::Obj(
        Map::empty().insert("role"@, JsonTree::Str(role)).insert("content"@, JsonTree::Str(content)),
    )
}

/// The texts of the text blocks, in order.
pub open spec fn block_texts(bs: Seq<BlockView>) -> Seq<Seq<char>>
    decreases bs.len(),
{
    if bs.len() == 0 {
        Seq::empty()
    } else {
        let r = block_texts(bs.drop_last());
        match bs.last() {
            BlockView::Text(t) => r.push(t),
            _ => r,
        }
    }
}

/// The thinking text of the thinking blocks, concatenated.
pub open spec fn block_reasoning(bs: Seq<BlockView>) -> Seq<char>
    decreases bs.len(),
{
    if bs.len() == 0 {
        Seq::empty()
    } else {
        let r = block_reasoning(bs.drop_last());
        match bs.last() {
            BlockView::Thinking(t) => r + t,
            _ => r,
        }
    }
}

/// A tool call of an assistant message in the wire format; its arguments are
/// the input's JSON text.
pub open spec fn tool_call_tree(id: Seq<char>, name: Seq<char>, input: JsonTree) -> JsonTree {
    JsonTree::Obj(
        Map::empty().insert("id"@, JsonTree::Str(id)).insert("type"@, JsonTree::Str("function"@)).insert(
            "function"@,
            JsonTree::Obj(
                Map::empty().insert("name"@, JsonTree::Str(name)).insert(
                    "arguments"@,
                    JsonTree::Str(json_text(input)),
                ),
            ),
        ),
    )
}

/// The tool calls of the tool-use blocks, in order.
pub open spec fn block_tool_calls(bs: Seq<BlockView>) -> Seq<JsonTree>
    decreases bs.len(),
{
    if bs.len() == 0 {
        Seq::empty()
    } else {
        let r = block_tool_calls(bs.drop_last());
        match bs.last() {
            BlockView::ToolUse(id, name, input) => r.push(tool_call_tree(id, name, input)),
            _ => r,
        }
    }
}

/// A `{"role": "tool", ..}` message for a tool result.
pub open spec fn tool_result_tree(id: Seq<char>, content: Seq<char>) -> JsonTree {
    JsonTree::Obj(
        Map::empty().insert("role"@, JsonTree::Str("tool"@)).insert("tool_call_id"@, JsonTree::Str(id)).insert(
            "content"@,
            JsonTree::Str(content),
        ),
    )
}

/// The tool-result messages of the tool-result blocks, in order.
pub open spec fn block_tool_results(bs: Seq<BlockView>) -> Seq<JsonTree>
    decreases bs.len(),
{
    if bs.len() == 0 {
        Seq::empty()
    } else {
        let r = block_tool_results(bs.drop_last());
        match bs.last() {
            BlockView::ToolResult(id, content, _) => r.push(tool_result_tree(id, content)),
            _ => r,
        }
    }
}

/// The members of a message with a role, its texts joined by newlines (when
/// there are any) and its reasoning (when there is any).
pub open spec fn role_text_map(role: Seq<char>, texts: Seq<Seq<char>>, reasoning: Seq<char>) -> Map<
    Seq<char>,
    JsonTree,
> {
    let m0 = Map::empty().insert("role"@, JsonTree::Str(role));
    let m1 = if texts.len() > 0 {
        m0.insert("content"@, JsonTree::Str(join(texts, "\n"@)))
    } else {
        m0
    };
    if reasoning.len() > 0 {
        m1.insert("reasoning_content"@, JsonTree::Str(reasoning))
    } else {
        m1
    }
}

/// The wire messages for a list of blocks of a message by `role`: one per tool
/// result, then an assistant message with the tool calls (and text and
/// reasoning) if there are calls, or else a message with the text and
/// reasoning if there are any.
pub open spec fn blocks_messages(role: Role, bs: Seq<BlockView>) -> Seq<JsonTree> {
    let texts = block_texts(bs);
    let reasoning = block_reasoning(bs);
    let calls = block_tool_calls(bs);
    block_tool_results(bs) + if calls.len() > 0 {
        seq![
            JsonTree::Obj(
                role_text_map("assistant"@, texts, reasoning).insert("tool_calls"@, JsonTree::Arr(calls)),
            ),
        ]
    } else if texts.len() > 0 || reasoning.len() > 0 {
        seq![JsonTree::Obj(role_text_map(role_name(role), texts, reasoning))]
    } else {
        Seq::empty()
    }
}

/// The wire messages of one message.
pub open spec fn message_trees(m: MessageView) -> Seq<JsonTree> {
    match m.content {
        ContentView::Text(t) => seq![role_content(role_name(m.role), t)],
        ContentView::Blocks(bs) => blocks_messages(m.role, bs),
    }
}

/// The wire messages of a list of messages, in order.
pub open spec fn messages_trees(ms: Seq<MessageView>) -> Seq<JsonTree>
    decreases ms.len(),
{
    if ms.len() == 0 {
        Seq::empty()
    } else {
        messages_trees(ms.drop_last()) + message_trees(ms.last())
    }
}

/// The full wire message list: the system prompt, then the conversation.
pub open spec fn openai_messages(system: Seq<char>, ms: Seq<MessageView>) -> Seq<JsonTree> {
    seq![role_content("system"@, system)] + messages_trees(ms)
}

/// A `{"role": .., "content": ..}` message value.
fn role_content_value(role: &str, content: &str) -> (r: serde_json::Value)
    ensures
        json_tree(r) == role_content(role@, content@),
{
    let mut e: Vec<(String, serde_json::Value)> = Vec::new();
    proof {
        assert(entries_view(e@) =~= Seq::empty());
    }
    proof {
        reveal_strlit("role");
        reveal_strlit("content");
        assert("role"@.len() != "content"@.len());
    }
    push_entry(&mut e, "role", json_string(role));
    push_entry(&mut e, "content", json_string(content));
    json_object(e)
}

/// The role name of the wire format.
fn role_str(r: Role) -> (s: &'static str)
    ensures
        s@ == role_name(r),
{
    match r {
        Role::User => "user",
        Role::Assistant => "assistant",
    }
}

/// The wire message of a list of blocks with role, texts and reasoning.
fn role_text_entries(role: &str, texts: &Vec<Vec<char>>, reasoning: &Vec<char>) -> (r: Vec<(String, serde_json::Value)>)
    ensures
        map_of(entries_view(r@)) == role_text_map(role@, char_seqs(texts@), reasoning@),
        keys_distinct(entries_view(r@)),
        !has_key(entries_view(r@), "tool_calls"@),
{
    let mut e: Vec<(String, serde_json::Value)> = Vec::new();
    proof {
        assert(entries_view(e@) =~= Seq::empty());
        reveal_strlit("\n");
    }
    proof {
        reveal_strlit("role");
        reveal_strlit("content");
        reveal_strlit("reasoning_content");
        reveal_strlit("tool_calls");
        assert("role"@.len() != "content"@.len());
        assert("role"@.len() != "reasoning_content"@.len());
        assert("role"@.len() != "tool_calls"@.len());
        assert("content"@.len() != "reasoning_content"@.len());
        assert("content"@.len() != "tool_calls"@.len());
        assert("reasoning_content"@.len() != "tool_calls"@.len());
    }
    push_entry(&mut e, "role", json_string(role));
    if texts.len() > 0 {
        let nl = chars_of("\n");
        let joined = join_chars(texts, nl.as_slice());
        let js = string_of(joined.as_slice());
        push_entry(&mut e, "content", json_string(js.as_str()));
    }
    if reasoning.len() > 0 {
        let rs = string_of(reasoning.as_slice());
        push_entry(&mut e, "reasoning_content", json_string(rs.as_str()));
    }
    e
}

/// Appends the wire messages of a list of blocks.
fn push_blocks_messages(out: &mut Vec<serde_json::Value>, role: Role, blocks: &Vec<ContentBlock>)
    ensures
        trees(final(out)@) == trees(old(out)@) + blocks_messages(role, blocks_view(blocks@)),
{
    let ghost bs = blocks_view(blocks@);
    let ghost base = trees(out@);
    let mut texts: Vec<Vec<char>> = Vec::new();
    let mut reasoning: Vec<char> = Vec::new();
    let mut calls: Vec<serde_json::Value> = Vec::new();
    let mut i: usize = 0;
    proof {
        assert(bs.take(0) =~= Seq::<BlockView>::empty());
        assert(char_seqs(texts@) =~= Seq::<Seq<char>>::empty());
        assert(trees(calls@) =~= Seq::<JsonTree>::empty());
        assert(trees(out@) =~= base + Seq::<JsonTree>::empty());
    }
    while i < blocks.len()
        invariant
            i <= blocks@.len(),
            bs == blocks_view(blocks@),
            base == trees(old(out)@),
            char_seqs(texts@) == block_texts(bs.take(i as int)),
            reasoning@ == block_reasoning(bs.take(i as int)),
            trees(calls@) == block_tool_calls(bs.take(i as int)),
            trees(out@) == base + block_tool_results(bs.take(i as int)),
        decreases blocks@.len() - i,
    {
        proof {
            assert(bs.take(i + 1).drop_last() =~= bs.take(i as int));
            assert(bs.take(i + 1).last() == blocks@[i as int]@);
        }
        match &blocks[i] {
            ContentBlock::Text { text } => {
                let ghost before = texts@;
                texts.push(chars_of(text.as_str()));
                proof {
                    assert(char_seqs(texts@) =~= char_seqs(before).push(text@));
                }
            },
            ContentBlock::Thinking { thinking } => {
                push_str(&mut reasoning, thinking.as_str());
            },
            ContentBlock::ToolUse { id, name, input } => {
                let mut fe: Vec<(String, serde_json::Value)> = Vec::new();
                proof {
                    assert(entries_view(fe@) =~= Seq::empty());
                }
                proof {
                    reveal_strlit("name");
                    reveal_strlit("arguments");
                    reveal_strlit("id");
                    reveal_strlit("type");
                    reveal_strlit("function");
                    assert("name"@.len() != "arguments"@.len());
                    assert("name"@.len() != "id"@.len());
                    assert("name"@ != "type"@) by {
                        assert("name"@[0] != "type"@[0]);
                    }
                    assert("name"@.len() != "function"@.len());
                    assert("arguments"@.len() != "id"@.len());
                    assert("arguments"@.len() != "type"@.len());
                    assert("arguments"@.len() != "function"@.len());
                    assert("id"@.len() != "type"@.len());
                    assert("id"@.len() != "function"@.len());
                    assert("type"@.len() != "function"@.len());
                }
                push_entry(&mut fe, "name", json_string(name.as_str()));
                let args = json_to_text(input);
                push_entry(&mut fe, "arguments", json_string(args.as_str()));
                let mut ce: Vec<(String, serde_json::Value)> = Vec::new();
                proof {
                    assert(entries_view(ce@) =~= Seq::empty());
                }
                push_entry(&mut ce, "id", json_string(id.as_str()));
                push_entry(&mut ce, "type", json_string("function"));
                push_entry(&mut ce, "function", json_object(fe));
                let c = json_object(ce);
                let ghost before = calls@;
                calls.push(c);
                proof {
                    assert(trees(calls@) =~= trees(before).push(json_tree(c)));
                }
            },
            ContentBlock::ToolResult { tool_use_id, content, is_error: _ } => {
                let mut te: Vec<(String, serde_json::Value)> = Vec::new();
                proof {
                    assert(entries_view(te@) =~= Seq::empty());
                }
                proof {
                    reveal_strlit("role");
                    reveal_strlit("tool_call_id");
                    reveal_strlit("content");
                    assert("role"@.len() != "tool_call_id"@.len());
                    assert("role"@.len() != "content"@.len());
                    assert("tool_call_id"@.len() != "content"@.len());
                }
                push_entry(&mut te, "role", json_string("tool"));
                push_entry(&mut te, "tool_call_id", json_string(tool_use_id.as_str()));
                push_entry(&mut te, "content", json_string(content.as_str()));
                let t = json_object(te);
                let ghost before = out@;
                out.push(t);
                proof {
                    assert(trees(out@) =~= trees(before).push(json_tree(t)));
                }
            },
        }
        i = i + 1;
    }
    proof {
        assert(bs.take(i as int) =~= bs);
    }
    let ghost mid = trees(out@);
    if calls.len() > 0 {
        let mut e = role_text_entries("assistant", &texts, &reasoning);
        push_entry(&mut e, "tool_calls", json_array(calls));
        let m = json_object(e);
        out.push(m);
        proof {
            assert(trees(out@) =~= mid.push(json_tree(m)));
        }
    } else if texts.len() > 0 || reasoning.len() > 0 {
        let e = role_text_entries(role_str(role), &texts, &reasoning);
        let m = json_object(e);
        out.push(m);
        proof {
            assert(trees(out@) =~= mid.push(json_tree(m)));
        }
    } else {
        proof {
            assert(trees(out@) =~= mid + Seq::<JsonTree>::empty());
        }
    }
}

/// Converts the system prompt and the conversation to OpenAI chat messages.
pub fn to_openai_messages(system: &str, messages: &Vec<Message>) -> (r: Vec<serde_json::Value>)
    ensures
        trees(r@) == openai_messages(system@, messages_view(messages@)),
{
    let mut out: Vec<serde_json::Value> = Vec::new();
    out.push(role_content_value("system", system));
    let ghost first = trees(out@);
    let ghost ms = messages_view(messages@);
    let mut i: usize = 0;
    proof {
        assert(ms.take(0) =~= Seq::<MessageView>::empty());
        assert(trees(out@) =~= first + messages_trees(ms.take(0)));
    }
    while i < messages.len()
        invariant
            i <= messages@.len(),
            ms == messages_view(messages@),
            trees(out@) == first + messages_trees(ms.take(i as int)),
        decreases messages@.len() - i,
    {
        proof {
            assert(ms.take(i + 1).drop_last() =~= ms.take(i as int));
            assert(ms.take(i + 1).last() == messages@[i as int]@);
        }
        let ghost before = trees(out@);
        let msg = &messages[i];
        match &msg.content {
            MessageContent::Text(t) => {
                let v = role_content_value(role_str(msg.role), t.as_str());
                out.push(v);
                proof {
                    assert(trees(out@) =~= before.push(json_tree(v)));
                }
            },
            MessageContent::Blocks(b) => {
                push_blocks_messages(&mut out, msg.role, b);
            },
        }
        proof {
            assert(trees(out@) =~= first + messages_trees(ms.take(i + 1)));
        }
        i = i + 1;
    }
    proof {
        assert(ms.take(i as int) =~= ms);
        reveal_strlit("system");
    }
    out
}

/// The body of a chat completion request: model, messages, token limit, the
/// `stream` flag when streaming, and the tools when there are any.
pub open spec fn request_body(
    model: Seq<char>,
    system: Seq<char>,
    max_tokens: nat,
    ms: Seq<MessageView>,
    tools: Seq<JsonTree>,
    stream: bool,
) -> JsonTree {
    let m0 = Map::empty().insert("model"@, JsonTree::Str(model)).insert(
        "messages"@,
        JsonTree::Arr(openai_messages(system, ms)),
    ).insert("max_tokens"@, JsonTree::Num(JsonNum::PosInt(max_tokens)));
    let m1 = if stream {
        m0.insert("stream"@, JsonTree::Bool(true))
    } else {
        m0
    };
    JsonTree::Obj(
        if tools.len() > 0 {
            m1.insert("tools"@, JsonTree::Arr(tools.map_values(|t: JsonTree| openai_tool(t))))
        } else {
            m1
        },
    )
}

/// Builds the JSON body of a chat completion request.
pub fn openai_request_body(request: &LlmRequest, stream: bool) -> (r: serde_json::Value)
    ensures
        json_tree(r) == request_body(
            request.model@,
            request.system@,
            request.max_tokens as nat,
            messages_view(request.messages@),
            trees(request.tools@),
            stream,
        ),
{
    let messages = to_openai_messages(request.system.as_str(), &request.messages);
    let tools = to_openai_tools(&request.tools);
    proof {
        assert(trees(tools@).len() == tools@.len());
        assert(trees(request.tools@).len() == request.tools@.len());
    }
    let mut e: Vec<(String, serde_json::Value)> = Vec::new();
    proof {
        assert(entries_view(e@) =~= Seq::empty());
    }
    proof {
        reveal_strlit("model");
        reveal_strlit("messages");
        reveal_strlit("max_tokens");
        reveal_strlit("stream");
        reveal_strlit("tools");
        assert("model"@.len() != "messages"@.len());
        assert("model"@.len() != "max_tokens"@.len());
        assert("model"@.len() != "stream"@.len());
        assert("model"@ != "tools"@) by {
            assert("model"@[0] != "tools"@[0]);
        }
        assert("messages"@.len() != "max_tokens"@.len());
        assert("messages"@.len() != "stream"@.len());
        assert("messages"@.len() != "tools"@.len());
        assert("max_tokens"@.len() != "stream"@.len());
        assert("max_tokens"@.len() != "tools"@.len());
        assert("stream"@.len() != "tools"@.len());
    }
    push_entry(&mut e, "model", json_string(request.model.as_str()));
    push_entry(&mut e, "messages", json_array(messages));
    push_entry(&mut e, "max_tokens", json_u64(request.max_tokens as u64));
    if stream {
        push_entry(&mut e, "stream", json_bool(true));
    }
    if tools.len() > 0 {
        push_entry(&mut e, "tools", json_array(tools));
    }
    json_object(e)
}

/// The stream state of a tool call being received (id, name, argument text)
/// and of the reasoning text accumulated so far.
pub type ToolState = (Seq<char>, Seq<char>, Seq<char>, Seq<char>);

/// The pending tool call as a completed block, if there is one (`id` not
/// empty); when `clear`, its id is cleared afterwards.
pub open spec fn flush_tool(st: ToolState, clear: bool) -> (Seq<EventView>, ToolState) {
    if st.0.len() > 0 {
        (
            seq![EventView::BlockComplete(BlockView::ToolUse(st.0, st.1, parsed_or_empty(st.2)))],
            if clear {
                (Seq::empty(), st.1, st.2, st.3)
            } else {
                st
            },
        )
    } else {
        (Seq::empty(), st)
    }
}

/// The accumulated reasoning as a completed thinking block, if there is any,
/// after which it is cleared.
pub open spec fn flush_reasoning(st: ToolState) -> (Seq<EventView>, ToolState) {
    if st.3.len() > 0 {
        (seq![EventView::BlockComplete(BlockView::Thinking(st.3))], (st.0, st.1, st.2, Seq::empty()))
    } else {
        (Seq::empty(), st)
    }
}

/// The string member `key` of a tool call's `function` object.
pub open spec fn function_member(tc: JsonTree, key: Seq<char>) -> Option<Seq<char>> {
    match obj_get(tc, "function"@) {
        Some(f) => str_member(f, key),
        None => None,
    }
}

/// One entry of a delta's `tool_calls`: an entry with an id completes the
/// pending call and starts a new one; one without adds to the argument text.
pub open spec fn tool_call_delta(tc: JsonTree, st: ToolState) -> (Seq<EventView>, ToolState) {
    match str_member(tc, "id"@) {
        Some(id) => (
            flush_tool(st, false).0,
            (
                id,
                or_text(function_member(tc, "name"@), Seq::empty()),
                or_text(function_member(tc, "arguments"@), Seq::empty()),
                st.3,
            ),
        ),
        None => match function_member(tc, "arguments"@) {
            Some(a) => (Seq::empty(), (st.0, st.1, st.2 + a, st.3)),
            None => (Seq::empty(), st),
        },
    }
}

/// The entries of a delta's `tool_calls`, in order.
pub open spec fn tool_calls_delta(tcs: Seq<JsonTree>, st: ToolState) -> (Seq<EventView>, ToolState)
    decreases tcs.len(),
{
    if tcs.len() == 0 {
        (Seq::empty(), st)
    } else {
        let (e1, s1) = tool_calls_delta(tcs.drop_last(), st);
        let (e2, s2) = tool_call_delta(tcs.last(), s1);
        (e1 + e2, s2)
    }
}

/// An entry of a delta's `tool_calls` that carries an id completes the call
/// pending before it: that call comes out as one tool-use block (its argument
/// text parsed, `{}` when invalid), and the new id becomes the pending one.
pub proof fn law_new_id_completes_pending(tc: JsonTree, st: ToolState)
    requires
        st.0.len() > 0,
        str_member(tc, "id"@) is Some,
    ensures
        tool_call_delta(tc, st).0 == seq![
            EventView::BlockComplete(
                BlockView::ToolUse(
                    st.0,
                    st.1,
                    match json_parse(st.2) {
                        Some(t) => t,
                        None => JsonTree::Obj(Map::empty()),
                    },
                ),
            ),
        ],
        tool_call_delta(tc, st).1.0 == str_member(tc, "id"@)->0,
        tool_call_delta(tc, st).1.3 == st.3,
{
}

/// The entry carries a non-empty call id.
pub open spec fn carries_id(tc: JsonTree) -> bool {
    str_member(tc, "id"@) matches Some(id) && id.len() > 0
}

/// The tool-use block for the call that a `tool_calls` entry with an id starts,
/// when nothing is added to its arguments later.
pub open spec fn started_call(tc: JsonTree) -> EventView {
    EventView::BlockComplete(
        BlockView::ToolUse(
            str_member(tc, "id"@)->0,
            or_text(function_member(tc, "name"@), Seq::empty()),
            match json_parse(or_text(function_member(tc, "arguments"@), Seq::empty())) {
                Some(t) => t,
                None => JsonTree::Obj(Map::empty()),
            },
        ),
    )
}

/// The state after the entries `tcs`, each with an id, taken in from a state
/// with no pending call: the calls before the last are out, the last is pending.
proof fn lemma_calls_with_ids(tcs: Seq<JsonTree>, r: Seq<char>)
    requires
        tcs.len() > 0,
        forall|i: int| 0 <= i < tcs.len() ==> carries_id(#[trigger] tcs[i]),
    ensures
        tool_calls_delta(tcs, (Seq::empty(), Seq::empty(), Seq::empty(), r)) == (
            tcs.drop_last().map_values(|tc: JsonTree| started_call(tc)),
            (
                str_member(tcs.last(), "id"@)->0,
                or_text(function_member(tcs.last(), "name"@), Seq::empty()),
                or_text(function_member(tcs.last(), "arguments"@), Seq::empty()),
                r,
            ),
        ),
    decreases tcs.len(),
{
    let st0: ToolState = (Seq::empty(), Seq::empty(), Seq::empty(), r);
    let d = tcs.drop_last();
    assert(carries_id(tcs[tcs.len() - 1]));
    if tcs.len() == 1 {
        assert(d =~= Seq::<JsonTree>::empty());
        assert(d.map_values(|tc: JsonTree| started_call(tc)) =~= Seq::<EventView>::empty());
        assert(tool_calls_delta(d, st0) == (Seq::<EventView>::empty(), st0));
    } else {
        assert forall|i: int| 0 <= i < d.len() implies carries_id(#[trigger] d[i]) by {
            assert(d[i] == tcs[i]);
        }
        lemma_calls_with_ids(d, r);
        let prev = d.last();
        assert(carries_id(tcs[d.len() - 1]));
        assert(prev == tcs[d.len() - 1]);
        assert(d.map_values(|tc: JsonTree| started_call(tc)) =~= d.drop_last().map_values(
            |tc: JsonTree| started_call(tc),
        ).push(started_call(prev)));
    }
}

/// Every `tool_calls` entry with an id comes out exactly once, in order: taking
/// in entries that each carry a (non-empty) id, from a state with no pending
/// call and no reasoning, and then ending the stream, gives one tool-use block
/// per entry, in the entries' order, then `Done`.
pub proof fn law_each_call_once_in_order(tcs: Seq<JsonTree>, reason: Option<Seq<char>>)
    requires
        forall|i: int| 0 <= i < tcs.len() ==> carries_id(#[trigger] tcs[i]),
    ensures
        ({
            let (evs, st) = tool_calls_delta(
                tcs,
                (Seq::empty(), Seq::empty(), Seq::empty(), Seq::empty()),
            );
            evs + stream_done(st, reason).0
        }) == tcs.map_values(|tc: JsonTree| started_call(tc)).push(EventView::Done(reason)),
{
    let st0: ToolState = (Seq::empty(), Seq::empty(), Seq::empty(), Seq::empty());
    if tcs.len() == 0 {
        assert(tcs.map_values(|tc: JsonTree| started_call(tc)) =~= Seq::<EventView>::empty());
        assert(tool_calls_delta(tcs, st0) == (Seq::<EventView>::empty(), st0));
        assert(Seq::<EventView>::empty() + stream_done(st0, reason).0 =~= seq![EventView::Done(reason)]);
    } else {
        lemma_calls_with_ids(tcs, Seq::empty());
        let last = tcs.last();
        assert(carries_id(tcs[tcs.len() - 1]));
        let (evs, st) = tool_calls_delta(tcs, st0);
        assert(st.3 =~= Seq::<char>::empty());
        assert(tcs.map_values(|tc: JsonTree| started_call(tc)) =~= tcs.drop_last().map_values(
            |tc: JsonTree| started_call(tc),
        ).push(started_call(last)));
        assert(evs + stream_done(st, reason).0 =~= tcs.map_values(|tc: JsonTree| started_call(tc)).push(
            EventView::Done(reason),
        ));
    }
}

/// What ends the stream: the pending call, the reasoning, then `Done`.
pub open spec fn stream_done(st: ToolState, reason: Option<Seq<char>>) -> (Seq<EventView>, ToolState) {
    let (e1, s1) = flush_tool(st, true);
    let (e2, s2) = flush_reasoning(s1);
    (e1 + e2.push(EventView::Done(reason)), s2)
}

/// The first choice of a chunk.
pub open spec fn first_choice(v: JsonTree) -> Option<JsonTree> {
    match obj_get(v, "choices"@) {
        Some(c) => arr_get(c, 0),
        None => None,
    }
}

/// The delta of a chunk's first choice.
pub open spec fn chunk_delta(v: JsonTree) -> Option<JsonTree> {
    match first_choice(v) {
        Some(c) => obj_get(c, "delta"@),
        None => None,
    }
}

/// The `tool_calls` array of a chunk's delta.
pub open spec fn chunk_tool_calls(v: JsonTree) -> Option<Seq<JsonTree>> {
    match chunk_delta(v) {
        Some(d) => match obj_get(d, "tool_calls"@) {
            Some(JsonTree::Arr(a)) => Some(a),
            _ => None,
        },
        None => None,
    }
}

/// The `finish_reason` of a chunk's first choice.
pub open spec fn chunk_finish(v: JsonTree) -> Option<Seq<char>> {
    match first_choice(v) {
        Some(c) => str_member(c, "finish_reason"@),
        None => None,
    }
}

/// What one JSON chunk yields: tool call deltas (after the reasoning is
/// flushed), then either the end of the stream on a `finish_reason`, or the
/// reasoning and text of the delta. The flag tells whether the stream ended.
pub open spec fn chunk_step(v: JsonTree, st: ToolState) -> (Seq<EventView>, ToolState, bool) {
    let (e1, s1) = match chunk_tool_calls(v) {
        Some(a) => {
            let (er, sr) = flush_reasoning(st);
            let (et, st2) = tool_calls_delta(a, sr);
            (er + et, st2)
        },
        None => (Seq::empty(), st),
    };
    match chunk_finish(v) {
        Some(reason) => {
            let (e2, s2) = stream_done(s1, Some(reason));
            (e1 + e2, s2, true)
        },
        None => match chunk_delta(v) {
            Some(d) => (
                e1 + match str_member(d, "content"@) {
                    Some(x) => if x.len() > 0 {
                        seq![EventView::TextDelta(x)]
                    } else {
                        Seq::empty()
                    },
                    None => Seq::empty(),
                },
                match str_member(d, "reasoning_content"@) {
                    Some(r) => if r.len() > 0 {
                        (s1.0, s1.1, s1.2, s1.3 + r)
                    } else {
                        s1
                    },
                    None => s1,
                },
                false,
            ),
            None => (e1, s1, false),
        },
    }
}

/// What one line of the stream yields: blank lines, comments and lines that
/// are not `data: ` lines yield nothing; `data: [DONE]` ends the stream; other
/// data is a JSON chunk (ignored when it does not parse).
pub open spec fn line_step(line: Seq<char>, st: ToolState) -> (Seq<EventView>, ToolState, bool) {
    let t = trim(line);
    if t.len() == 0 || has_prefix(t, ":"@) {
        (Seq::empty(), st, false)
    } else {
        match after_prefix(t, "data: "@) {
            None => (Seq::empty(), st, false),
            Some(data) => if data == "[DONE]"@ {
                let (e, s1) = stream_done(st, None);
                (e, s1, true)
            } else {
                match json_parse(data) {
                    None => (Seq::empty(), st, false),
                    Some(v) => chunk_step(v, st),
                }
            },
        }
    }
}

/// What the buffered stream text yields: every complete line is handled in
/// order until one ends the stream. Gives the events, the text left buffered,
/// the state, and whether the stream ended.
pub open spec fn drain_lines(s: Seq<char>, st: ToolState) -> (Seq<EventView>, Seq<char>, ToolState, bool)
    decreases s.len(),
{
    match find(s, "\n"@) {
        None => (Seq::empty(), s, st, false),
        Some(pos) => {
            proof {
                lemma_find_from(s, "\n"@, 0);
                reveal_strlit("\n");
            }
            let (e, st1, d) = line_step(s.take(pos), st);
            if d {
                (e, s.skip(pos + 1), st1, true)
            } else {
                let (e2, r2, st2, d2) = drain_lines(s.skip(pos + 1), st1);
                (e + e2, r2, st2, d2)
            }
        },
    }
}

/// What the end of the byte stream yields: the pending call and the reasoning.
pub open spec fn stream_end(st: ToolState) -> Seq<EventView> {
    flush_tool(st, false).0 + flush_reasoning(st).0
}

/// The tree parsed from a text, or `{}`.
fn parse_or_empty(j: &str) -> (v: serde_json::Value)
    ensures
        json_tree(v) == parsed_or_empty(j@),
{
    match parse_json(j) {
        Some(v) => v,
        None => json_empty_object(),
    }
}

/// The tool call and reasoning state of an OpenAI stream.
#[derive(Debug)]
pub struct OpenAiToolState {
    pub id: String,
    pub name: String,
    pub args: String,
    pub reasoning: String,
}

impl View for OpenAiToolState {
    type V = ToolState;

    open spec fn view(&self) -> ToolState {
        (self.id@, self.name@, self.args@, self.reasoning@)
    }
}

impl OpenAiToolState {
    /// No call pending and no reasoning.
    pub fn new() -> (s: OpenAiToolState)
        ensures
            s@ == (Seq::<char>::empty(), Seq::<char>::empty(), Seq::<char>::empty(), Seq::<char>::empty()),
    {
        OpenAiToolState {
            id: String::new(),
            name: String::new(),
            args: String::new(),
            reasoning: String::new(),
        }
    }

    /// Emits the pending call, if any; clears its id when `clear`.
    pub fn flush_tool(&mut self, out: &mut Vec<StreamEvent>, clear: bool)
        ensures
            events_view(final(out)@) == events_view(old(out)@) + flush_tool(old(self)@, clear).0,
            final(self)@ == flush_tool(old(self)@, clear).1,
    {
        if self.id.as_str().unicode_len() > 0 {
            let input = parse_or_empty(self.args.as_str());
            let b = ContentBlock::ToolUse {
                id: self.id.clone(),
                name: self.name.clone(),
                input,
            };
            let ev = StreamEvent::BlockComplete(b);
            let ghost before = out@;
            out.push(ev);
            proof {
                assert(events_view(out@) =~= events_view(before).push(ev@));
            }
            if clear {
                self.id = String::new();
            }
        } else {
            proof {
                assert(events_view(out@) =~= events_view(out@) + Seq::<EventView>::empty());
            }
        }
    }

    /// Emits the reasoning as a thinking block, if there is any, and clears it.
    pub fn flush_reasoning(&mut self, out: &mut Vec<StreamEvent>)
        ensures
            events_view(final(out)@) == events_view(old(out)@) + flush_reasoning(old(self)@).0,
            final(self)@ == flush_reasoning(old(self)@).1,
    {
        if self.reasoning.as_str().unicode_len() > 0 {
            let ev = StreamEvent::BlockComplete(
                ContentBlock::Thinking { thinking: self.reasoning.clone() },
            );
            let ghost before = out@;
            out.push(ev);
            proof {
                assert(events_view(out@) =~= events_view(before).push(ev@));
            }
            self.reasoning = String::new();
        } else {
            proof {
                assert(events_view(out@) =~= events_view(out@) + Seq::<EventView>::empty());
            }
        }
    }

    /// Ends the stream: the pending call, the reasoning, then `Done`.
    pub fn finish_stream(&mut self, out: &mut Vec<StreamEvent>, reason: Option<String>)
        ensures
            events_view(final(out)@) == events_view(old(out)@) + stream_done(
                old(self)@,
                opt_view(reason),
            ).0,
            final(self)@ == stream_done(old(self)@, opt_view(reason)).1,
    {
        let ghost base = events_view(out@);
        self.flush_tool(out, true);
        let ghost mid = events_view(out@);
        self.flush_reasoning(out);
        let ghost mid2 = events_view(out@);
        let ev = StreamEvent::Done { stop_reason: reason };
        out.push(ev);
        proof {
            assert(events_view(out@) =~= mid2.push(ev@));
        }
    }

    /// Handles one entry of a delta's `tool_calls`.
    pub fn tool_call_delta(&mut self, tc: &serde_json::Value, out: &mut Vec<StreamEvent>)
        ensures
            events_view(final(out)@) == events_view(old(out)@) + tool_call_delta(
                json_tree(*tc),
                old(self)@,
            ).0,
            final(self)@ == tool_call_delta(json_tree(*tc), old(self)@).1,
    {
        let f = json_get(tc, "function");
        let args = match f {
            Some(fv) => str_field(fv, "arguments"),
            None => None,
        };
        match str_field(tc, "id") {
            Some(id) => {
                self.flush_tool(out, false);
                let name = match f {
                    Some(fv) => str_field(fv, "name"),
                    None => None,
                };
                proof {
                    reveal_strlit("");
                    assert(""@ =~= Seq::<char>::empty());
                }
                self.id = id;
                self.name = match name {
                    Some(n) => n,
                    None => "".to_owned(),
                };
                self.args = match args {
                    Some(a) => a,
                    None => "".to_owned(),
                };
            },
            None => {
                match args {
                    Some(a) => {
                        let mut ac = chars_of(self.args.as_str());
                        push_str(&mut ac, a.as_str());
                        self.args = string_of(ac.as_slice());
                    },
                    None => {},
                }
                proof {
                    assert(events_view(out@) =~= events_view(old(out)@) + Seq::<EventView>::empty());
                }
            },
        }
    }

    /// Handles one JSON chunk; returns whether it ended the stream.
    pub fn chunk(&mut self, v: &serde_json::Value, out: &mut Vec<StreamEvent>) -> (done: bool)
        ensures
            events_view(final(out)@) == events_view(old(out)@) + chunk_step(json_tree(*v), old(self)@).0,
            final(self)@ == chunk_step(json_tree(*v), old(self)@).1,
            done == chunk_step(json_tree(*v), old(self)@).2,
    {
        let ghost base = events_view(out@);
        let ghost vt = json_tree(*v);
        let choice = match json_get(v, "choices") {
            Some(c) => json_at(c, 0),
            None => None,
        };
        let delta = match choice {
            Some(c) => json_get(c, "delta"),
            None => None,
        };
        let tcs = match delta {
            Some(d) => match json_get(d, "tool_calls") {
                Some(t) => json_as_array(t),
                None => None,
            },
            None => None,
        };
        proof {
            assert(first_choice(vt) is Some <==> choice is Some);
            assert(choice matches Some(c) ==> json_tree(*c) == first_choice(vt)->0);
            assert(delta matches Some(d) ==> json_tree(*d) == chunk_delta(vt)->0);
            assert(delta is Some <==> chunk_delta(vt) is Some);
            assert(tcs is Some <==> chunk_tool_calls(vt) is Some);
        }
        match tcs {
            Some(a) => {
                let ghost items = chunk_tool_calls(vt)->0;
                self.flush_reasoning(out);
                let ghost s0 = self@;
                let ghost b1 = events_view(out@);
                let mut i: usize = 0;
                proof {
                    assert(items.take(0) =~= Seq::<JsonTree>::empty());
                    assert(b1 =~= b1 + tool_calls_delta(items.take(0), s0).0);
                }
                while i < a.len()
                    invariant
                        i <= a@.len(),
                        a@.len() == items.len(),
                        forall|j: int| 0 <= j < a@.len() ==> json_tree(#[trigger] a@[j]) == items[j],
                        events_view(out@) == b1 + tool_calls_delta(items.take(i as int), s0).0,
                        self@ == tool_calls_delta(items.take(i as int), s0).1,
                    decreases a@.len() - i,
                {
                    proof {
                        assert(items.take(i + 1).drop_last() =~= items.take(i as int));
                        assert(items.take(i + 1).last() == items[i as int]);
                    }
                    let ghost before = events_view(out@);
                    self.tool_call_delta(&a[i], out);
                    proof {
                        assert(events_view(out@) =~= b1 + tool_calls_delta(items.take(i + 1), s0).0);
                    }
                    i = i + 1;
                }
                proof {
                    assert(items.take(i as int) =~= items);
                }
            },
            None => {
                proof {
                    assert(base =~= base + Seq::<EventView>::empty());
                }
            },
        }
        let ghost e1 = events_view(out@);
        let ghost s1 = self@;
        let finish = match choice {
            Some(c) => str_field(c, "finish_reason"),
            None => None,
        };
        match finish {
            Some(reason) => {
                self.finish_stream(out, Some(reason));
                proof {
                    assert(events_view(out@) =~= base + (e1.skip(base.len() as int) + stream_done(
                        s1,
                        chunk_finish(vt),
                    ).0));
                }
                return true;
            },
            None => {},
        }
        match delta {
            Some(d) => {
                match str_field(d, "reasoning_content") {
                    Some(r) => {
                        if r.as_str().unicode_len() > 0 {
                            let mut rc = chars_of(self.reasoning.as_str());
                            push_str(&mut rc, r.as_str());
                            self.reasoning = string_of(rc.as_slice());
                        }
                    },
                    None => {},
                }
                match str_field(d, "content") {
                    Some(x) => {
                        if x.as_str().unicode_len() > 0 {
                            let ev = StreamEvent::TextDelta(x);
                            out.push(ev);
                            proof {
                                assert(events_view(out@) =~= e1.push(ev@));
                            }
                        }
                    },
                    None => {},
                }
            },
            None => {},
        }
        false
    }
}

impl OpenAiToolState {
    /// Handles one line of the stream; returns whether it ended the stream.
    pub fn line(&mut self, line: &[char], out: &mut Vec<StreamEvent>) -> (done: bool)
        ensures
            events_view(final(out)@) == events_view(old(out)@) + line_step(line@, old(self)@).0,
            final(self)@ == line_step(line@, old(self)@).1,
            done == line_step(line@, old(self)@).2,
    {
        let t = trim_chars(line);
        let colon = chars_of(":");
        let prefix = chars_of("data: ");
        let done_mark = chars_of("[DONE]");
        proof {
            reveal_strlit(":");
            reveal_strlit("data: ");
            reveal_strlit("[DONE]");
        }
        if t.len() == 0 || starts_with(t.as_slice(), colon.as_slice()) {
            proof {
                assert(events_view(out@) =~= events_view(out@) + Seq::<EventView>::empty());
            }
            return false;
        }
        let data = match strip_prefix_chars(t.as_slice(), prefix.as_slice()) {
            Some(d) => d,
            None => {
                proof {
                    assert(events_view(out@) =~= events_view(out@) + Seq::<EventView>::empty());
                }
                return false;
            },
        };
        if slice_eq(data.as_slice(), done_mark.as_slice()) {
            self.finish_stream(out, None);
            return true;
        }
        let ds = string_of(data.as_slice());
        match parse_json(ds.as_str()) {
            Some(v) => self.chunk(&v, out),
            None => {
                proof {
                    assert(events_view(out@) =~= events_view(out@) + Seq::<EventView>::empty());
                }
                false
            },
        }
    }
}

/// The state of an OpenAI event stream being decoded.
#[derive(Debug)]
pub struct OpenAiSseDecoder {
    pub buf: String,
    pub state: OpenAiToolState,
    pub done: bool,
}

impl OpenAiSseDecoder {
    /// A decoder that has seen nothing yet.
    pub fn new() -> (d: OpenAiSseDecoder)
        ensures
            d.buf@ == Seq::<char>::empty(),
            d.state@ == (Seq::<char>::empty(), Seq::<char>::empty(), Seq::<char>::empty(), Seq::<char>::empty()),
            !d.done,
    {
        OpenAiSseDecoder { buf: String::new(), state: OpenAiToolState::new(), done: false }
    }

    /// Takes in the next chunk of stream bytes, decoded as UTF-8 with invalid
    /// sequences replaced (`String::from_utf8_lossy`), as `feed` takes text.
    pub fn feed_bytes(&mut self, chunk: &[u8]) -> (r: Vec<StreamEvent>)
        ensures
            old(self).done ==> r@.len() == 0 && final(self).buf@ == old(self).buf@ && final(self).state@
                == old(self).state@ && final(self).done,
            !old(self).done ==> (
                events_view(r@),
                final(self).buf@,
                final(self).state@,
                final(self).done,
            ) == drain_lines(old(self).buf@ + utf8_lossy(chunk@), old(self).state@),
    {
        let text = lossy_text(chunk);
        self.feed(text.as_str())
    }

    /// Takes in the next chunk of stream text and returns the events its
    /// complete lines yield; once the stream has ended, nothing more is taken.
    pub fn feed(&mut self, chunk: &str) -> (r: Vec<StreamEvent>)
        ensures
            old(self).done ==> r@.len() == 0 && final(self).buf@ == old(self).buf@ && final(self).state@
                == old(self).state@ && final(self).done,
            !old(self).done ==> (
                events_view(r@),
                final(self).buf@,
                final(self).state@,
                final(self).done,
            ) == drain_lines(old(self).buf@ + chunk@, old(self).state@),
    {
        let mut out: Vec<StreamEvent> = Vec::new();
        if self.done {
            return out;
        }
        let mut s = chars_of(self.buf.as_str());
        push_str(&mut s, chunk);
        let nl = chars_of("\n");
        proof {
            reveal_strlit("\n");
        }
        let ghost total = drain_lines(old(self).buf@ + chunk@, old(self).state@);
        proof {
            assert(events_view(out@) =~= Seq::<EventView>::empty());
        }
        loop
            invariant
                nl@ == "\n"@,
                !self.done,
                !old(self).done,
                total == drain_lines(old(self).buf@ + chunk@, old(self).state@),
                total == (
                    events_view(out@) + drain_lines(s@, self.state@).0,
                    drain_lines(s@, self.state@).1,
                    drain_lines(s@, self.state@).2,
                    drain_lines(s@, self.state@).3,
                ),
            decreases s@.len(),
        {
            proof {
                lemma_find_from(s@, nl@, 0);
            }
            match find_chars(s.as_slice(), nl.as_slice()) {
                None => {
                    proof {
                        assert(events_view(out@) + Seq::<EventView>::empty() =~= events_view(out@));
                    }
                    self.buf = string_of(s.as_slice());
                    return out;
                },
                Some(pos) => {
                    let sl = s.len();
                    proof {
                        reveal_strlit("\n");
                        assert(occurs_at(s@, nl@, pos as int));
                    }
                    let line = slice_range(s.as_slice(), 0, pos);
                    let rest = slice_range(s.as_slice(), pos + 1, sl);
                    proof {
                        assert(line@ =~= s@.take(pos as int));
                        assert(rest@ =~= s@.skip(pos + 1));
                        assert(find(s@, "\n"@) == Some(pos as int));
                    }
                    let ghost before = events_view(out@);
                    let ghost st0 = self.state@;
                    let d = self.state.line(line.as_slice(), &mut out);
                    if d {
                        self.buf = string_of(rest.as_slice());
                        self.done = true;
                        return out;
                    }
                    proof {
                        assert(events_view(out@) + drain_lines(rest@, self.state@).0 =~= before + (
                            line_step(s@.take(pos as int), st0).0 + drain_lines(rest@, self.state@).0));
                    }
                    s = rest;
                },
            }
        }
    }

    /// The events that the end of the byte stream completes: the pending call
    /// and the reasoning, unless the stream had already ended.
    pub fn finish(&mut self) -> (r: Vec<StreamEvent>)
        ensures
            events_view(r@) == if old(self).done {
                Seq::<EventView>::empty()
            } else {
                stream_end(old(self).state@)
            },
            final(self).done,
    {
        let mut out: Vec<StreamEvent> = Vec::new();
        proof {
            assert(events_view(out@) =~= Seq::<EventView>::empty());
        }
        if !self.done {
            let ghost st = self.state@;
            self.state.flush_tool(&mut out, false);
            self.state.flush_reasoning(&mut out);
            self.done = true;
        }
        out
    }
}

/// Splitting the stream text anywhere changes nothing: what `s1 + s2` yields
/// is what `s1` yields, followed by what its leftover text with `s2` yields;
/// once the stream has ended, `s2` is only kept in the buffer.
pub proof fn law_drain_lines_split(s1: Seq<char>, s2: Seq<char>, st: ToolState)
    ensures
        ({
            let (e1, r1, st1, d1) = drain_lines(s1, st);
            if d1 {
                drain_lines(s1 + s2, st) == (e1, r1 + s2, st1, true)
            } else {
                let (e2, r2, st2, d2) = drain_lines(r1 + s2, st1);
                drain_lines(s1 + s2, st) == (e1 + e2, r2, st2, d2)
            }
        }),
    decreases s1.len(),
{
    reveal_strlit("\n");
    lemma_find_from(s1, "\n"@, 0);
    match find(s1, "\n"@) {
        None => {
            assert(Seq::<EventView>::empty() + drain_lines(s1 + s2, st).0 =~= drain_lines(s1 + s2, st).0);
        },
        Some(pos) => {
            lemma_find_extend(s1, s2, "\n"@);
            let s = s1 + s2;
            assert(s.take(pos) =~= s1.take(pos));
            assert(s.skip(pos + 1) =~= s1.skip(pos + 1) + s2);
            let (e, st1, d) = line_step(s1.take(pos), st);
            if !d {
                law_drain_lines_split(s1.skip(pos + 1), s2, st1);
                let (e1, r1, q1, d1) = drain_lines(s1.skip(pos + 1), st1);
                if !d1 {
                    let (e2, r2, q2, d2) = drain_lines(r1 + s2, q1);
                    assert(e + (e1 + e2) =~= (e + e1) + e2);
                }
            }
        },
    }
}

} // verus!
