//! The provider-neutral conversation model: messages, content blocks, requests,
//! responses and streaming events.
use vstd::prelude::*;
use crate::json::{json_clone, json_tree, JsonTree};

verus! {

/// Who wrote a message.
#[derive(Debug, Clone, Copy, PartialEq, Eq, Structural)]
pub enum Role {
    User,
    Assistant,
}

/// One block of message content.
#[derive(Debug)]
pub enum ContentBlock {
    Text { text: String },
    Thinking { thinking: String },
    ToolUse { id: String, name: String, input: serde_json::Value },
    ToolResult { tool_use_id: String, content: String, is_error: Option<bool> },
}

/// The content of a content block.
pub ghost enum BlockView {
    Text(Seq<char>),
    Thinking(Seq<char>),
    ToolUse(Seq<char>, Seq<char>, JsonTree),
    ToolResult(Seq<char>, Seq<char>, Option<bool>),
}

impl View for ContentBlock {
    type V = BlockView;

    open spec fn view(&self) -> BlockView {
        match self {
            ContentBlock::Text { text } => BlockView::Text(text@),
            ContentBlock::Thinking { thinking } => BlockView::Thinking(thinking@),
            ContentBlock::ToolUse { id, name, input } => BlockView::ToolUse(
                id@,
                name@,
                json_tree(*input),
            ),
            ContentBlock::ToolResult { tool_use_id, content, is_error } => BlockView::ToolResult(
                tool_use_id@,
                content@,
                *is_error,
            ),
        }
    }
}

/// Views of a list of blocks.
pub open spec fn blocks_view(v: Seq<ContentBlock>) -> Seq<BlockView> {
    v.map_values(|b: ContentBlock| b@)
}

impl ContentBlock {
    /// A copy of the block.
    pub fn duplicate(&self) -> (r: ContentBlock)
        ensures
            r@ == self@,
    {
        match self {
            ContentBlock::Text { text } => ContentBlock::Text { text: text.clone() },
            ContentBlock::Thinking { thinking } => ContentBlock::Thinking {
                thinking: thinking.clone(),
            },
            ContentBlock::ToolUse { id, name, input } => ContentBlock::ToolUse {
                id: id.clone(),
                name: name.clone(),
                input: json_clone(input),
            },
            ContentBlock::ToolResult { tool_use_id, content, is_error } => ContentBlock::ToolResult {
                tool_use_id: tool_use_id.clone(),
                content: content.clone(),
                is_error: *is_error,
            },
        }
    }
}

/// A copy of a list of blocks.
pub fn duplicate_blocks(v: &Vec<ContentBlock>) -> (r: Vec<ContentBlock>)
    ensures
        blocks_view(r@) == blocks_view(v@),
{
    let mut r: Vec<ContentBlock> = Vec::new();
    let mut i: usize = 0;
    while i < v.len()
        invariant
            i <= v@.len(),
            blocks_view(r@) == blocks_view(v@.take(i as int)),
        decreases v@.len() - i,
    {
        let b = v[i].duplicate();
        let ghost before = r@;
        r.push(b);
        proof {
            assert(blocks_view(r@) =~= blocks_view(before).push(b@));
            assert(v@.take(i + 1) =~= v@.take(i as int).push(v@[i as int]));
            assert(blocks_view(v@.take(i + 1)) =~= blocks_view(v@.take(i as int)).push(v@[i as int]@));
        }
        i = i + 1;
    }
    proof {
        assert(v@.take(i as int) =~= v@);
    }
    r
}

/// The content of a message: plain text or a list of blocks.
#[derive(Debug)]
pub enum MessageContent {
    Text(String),
    Blocks(Vec<ContentBlock>),
}

/// A message of the conversation.
#[derive(Debug)]
pub struct Message {
    pub role: Role,
    pub content: MessageContent,
}

/// The content of a message.
pub ghost enum ContentView {
    Text(Seq<char>),
    Blocks(Seq<BlockView>),
}

/// The content of a message: its role and content.
pub ghost struct MessageView {
    pub role: Role,
    pub content: ContentView,
}

impl View for Message {
    type V = MessageView;

    open spec fn view(&self) -> MessageView {
        MessageView {
            role: self.role,
            content: match &self.content {
                MessageContent::Text(t) => ContentView::Text(t@),
                MessageContent::Blocks(b) => ContentView::Blocks(blocks_view(b@)),
            },
        }
    }
}

/// Views of a list of messages.
pub open spec fn messages_view(v: Seq<Message>) -> Seq<MessageView> {
    v.map_values(|m: Message| m@)
}

impl Message {
    /// A copy of the message.
    pub fn duplicate(&self) -> (r: Message)
        ensures
            r@ == self@,
    {
        let content = match &self.content {
            MessageContent::Text(t) => MessageContent::Text(t.clone()),
            MessageContent::Blocks(b) => MessageContent::Blocks(duplicate_blocks(b)),
        };
        Message { role: self.role, content }
    }
}

/// A copy of a list of messages.
pub fn duplicate_messages(v: &Vec<Message>) -> (r: Vec<Message>)
    ensures
        messages_view(r@) == messages_view(v@),
{
    let mut r: Vec<Message> = Vec::new();
    let mut i: usize = 0;
    while i < v.len()
        invariant
            i <= v@.len(),
            messages_view(r@) == messages_view(v@.take(i as int)),
        decreases v@.len() - i,
    {
        let m = v[i].duplicate();
        let ghost before = r@;
        r.push(m);
        proof {
            assert(messages_view(r@) =~= messages_view(before).push(m@));
            assert(v@.take(i + 1) =~= v@.take(i as int).push(v@[i as int]));
            assert(messages_view(v@.take(i + 1)) =~= messages_view(v@.take(i as int)).push(
                v@[i as int]@,
            ));
        }
        i = i + 1;
    }
    proof {
        assert(v@.take(i as int) =~= v@);
    }
    r
}

/// A completion request.
#[derive(Debug)]
pub struct LlmRequest {
    pub model: String,
    pub system: String,
    pub max_tokens: u32,
    pub messages: Vec<Message>,
    pub tools: Vec<serde_json::Value>,
}

/// A completion response.
#[derive(Debug)]
pub struct LlmResponse {
    pub content: Vec<ContentBlock>,
    pub stop_reason: Option<String>,
}

/// An event of a streamed completion.
#[derive(Debug)]
pub enum StreamEvent {
    TextDelta(String),
    BlockComplete(ContentBlock),
    Done { stop_reason: Option<String> },
    Error(String),
}

/// The content of a stream event.
pub ghost enum EventView {
    TextDelta(Seq<char>),
    BlockComplete(BlockView),
    Done(Option<Seq<char>>),
    Error(Seq<char>),
}

/// Views of an optional string.
pub open spec fn opt_view(o: Option<String>) -> Option<Seq<char>> {
    match o {
        Some(s) => Some(s@),
        None => None,
    }
}

impl View for StreamEvent {
    type V = EventView;

    open spec fn view(&self) -> EventView {
        match self {
            StreamEvent::TextDelta(t) => EventView::TextDelta(t@),
            StreamEvent::BlockComplete(b) => EventView::BlockComplete(b@),
            StreamEvent::Done { stop_reason } => EventView::Done(opt_view(*stop_reason)),
            StreamEvent::Error(e) => EventView::Error(e@),
        }
    }
}

/// Views of a list of stream events.
pub open spec fn events_view(v: Seq<StreamEvent>) -> Seq<EventView> {
    v.map_values(|e: StreamEvent| e@)
}

/// Connection settings of the Anthropic backend.
#[derive(Debug, Clone)]
pub struct AnthropicConfig {
    pub base_url: String,
    pub api_key: String,
}

/// Connection settings of the OpenAI-compatible backend.
#[derive(Debug, Clone)]
pub struct OpenAiConfig {
    pub base_url: String,
    pub api_key: String,
}

} // verus!
