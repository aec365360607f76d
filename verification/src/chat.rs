//! Chat messages, requests and answers as the gateway reads and writes them.
use crate::json;
use crate::text;
use vstd::prelude::*;

verus! {

/// How the model may use tools.
#[derive(Clone, Copy, Debug, PartialEq, Eq, Structural)]
pub enum ToolChoice {
    Auto,
    Required,
    Never,
}

/// A tool that the model may call.
#[derive(Clone, Debug)]
pub enum ToolDefinition {
    Function { function: FunctionDefinition },
}

/// A function that the model may call.
#[derive(Clone, Debug)]
pub struct FunctionDefinition {
    pub name: String,
    pub description: Option<String>,
    pub parameters: Option<serde_json::Value>,
}

/// A message of a chat.
#[allow(inconsistent_fields)]
#[derive(Debug)]
pub enum ChatMessage {
    Assistant {
        content: Option<MessageContent>,
        reasoning_content: Option<String>,
        tool_calls: Vec<ToolCall>,
    },
    User { content: MessageContent },
    System { content: MessageContent },
    Tool { content: MessageContent, tool_call_id: String },
}

/// What a message says: one text, or several parts.
#[derive(Debug, PartialEq, Eq)]
pub enum MessageContent {
    Plain(String),
    Multipart(Vec<MessagePart>),
}

/// A part of a message.
#[derive(Debug, PartialEq, Eq)]
pub enum MessagePart {
    Text { text: String },
    Image { image_url: ImageUrl },
}

/// The address of an image.
#[derive(Clone, Debug, PartialEq, Eq)]
pub struct ImageUrl {
    pub url: String,
    pub detail: Option<String>,
}

/// A call of a tool.
#[derive(Debug, PartialEq, Eq)]
pub struct ToolCall {
    pub id: String,
    pub content: ToolCallContent,
}

/// What is called.
#[derive(Debug, PartialEq, Eq)]
pub enum ToolCallContent {
    Function { function: FunctionContent },
}

/// A function and the JSON text of its arguments.
#[derive(Debug, PartialEq, Eq)]
pub struct FunctionContent {
    pub name: String,
    pub arguments: String,
}

/// A request for a completion.
#[derive(Debug)]
pub struct ChatCompletionRequest {
    pub model: String,
    pub messages: Vec<ChatMessage>,
    pub stream: bool,
    pub max_tokens: Option<i32>,
    pub stop: Option<Vec<String>>,
    /// The bits of the single-precision number.
    pub temperature: Option<u32>,
    pub tools: Vec<ToolDefinition>,
    pub tool_choice: Option<ToolChoice>,
    pub stream_options: Option<StreamOptions>,
    pub reasoning_effort: Option<String>,
}

/// Asks the server to end the stream with the token usage.
#[derive(Debug)]
pub struct StreamOptions {
    pub include_usage: bool,
}

/// Token usage of a completion.
#[derive(Debug)]
pub struct Usage {
    pub prompt_tokens: u64,
    pub completion_tokens: u64,
    pub total_tokens: u64,
}

/// An error that the server reports.
#[derive(Debug)]
pub struct GLMError {
    pub message: String,
}

/// What a line of the stream holds.
#[derive(Debug)]
pub enum ResponseStreamResult {
    Event(ResponseStreamEvent),
    Failure { error: GLMError },
}

/// A piece of a completion.
#[derive(Debug)]
pub struct ResponseStreamEvent {
    pub model: String,
    pub object: String,
    pub choices: Vec<ChoiceDelta>,
    pub usage: Option<Usage>,
}

/// A piece of one choice.
#[derive(Debug)]
pub struct ChoiceDelta {
    pub index: u32,
    pub delta: ResponseMessageDelta,
    pub finish_reason: Option<String>,
}

/// What a piece adds to the message.
#[derive(Debug, PartialEq, Eq)]
pub struct ResponseMessageDelta {
    pub content: Option<String>,
    pub reasoning_content: Option<String>,
    pub tool_calls: Option<Vec<ToolCallChunk>>,
}

/// A piece of a tool call.
#[derive(Debug, PartialEq, Eq)]
pub struct ToolCallChunk {
    pub index: usize,
    pub id: Option<String>,
    pub function: Option<FunctionChunk>,
}

/// A piece of a function call.
#[derive(Debug, PartialEq, Eq)]
pub struct FunctionChunk {
    pub name: Option<String>,
    pub arguments: Option<String>,
}

/// What a line of the stream gives, once its data was read: a piece of the
/// completion, or the message of an error.
pub fn stream_result(parsed: Result<ResponseStreamResult, String>) -> (r: Result<
    ResponseStreamEvent,
    String,
>)
    ensures
        match parsed {
            Ok(ResponseStreamResult::Event(event)) => r == Ok::<ResponseStreamEvent, String>(event),
            Ok(ResponseStreamResult::Failure { error }) => r matches Err(e) && e@ == error.message@,
            Err(error) => r matches Err(e) && e@ == error@,
        },
{
    match parsed {
        Ok(ResponseStreamResult::Event(event)) => Ok(event),
        Ok(ResponseStreamResult::Failure { error }) => Err(error.message),
        Err(error) => Err(error),
    }
}

// ---- views ----------------------------------------------------------------------------

/// A part of a message by its contents.
pub enum PartView {
    Text(Seq<char>),
    Image { url: Seq<char>, detail: Option<Seq<char>> },
}

/// What a message says, by its contents.
pub enum ContentView {
    Plain(Seq<char>),
    Multipart(Seq<PartView>),
}

/// A call of a tool by its contents.
pub struct CallView {
    pub id: Seq<char>,
    pub name: Seq<char>,
    pub arguments: Seq<char>,
}

/// A message by its contents.
#[allow(inconsistent_fields)]
pub enum ChatView {
    Assistant {
        content: Option<ContentView>,
        reasoning: Option<Seq<char>>,
        calls: Seq<CallView>,
    },
    User(ContentView),
    System(ContentView),
    Tool { content: ContentView, id: Seq<char> },
}

impl View for MessagePart {
    type V = PartView;

    open spec fn view(&self) -> PartView {
        match *self {
            MessagePart::Text { text } => PartView::Text(text@),
            MessagePart::Image { image_url } => PartView::Image {
                url: image_url.url@,
                detail: text::opt_view(image_url.detail),
            },
        }
    }
}

/// The parts of a message by their contents.
pub open spec fn part_views(parts: Seq<MessagePart>) -> Seq<PartView> {
    parts.map_values(|p: MessagePart| p@)
}

impl View for MessageContent {
    type V = ContentView;

    open spec fn view(&self) -> ContentView {
        match *self {
            MessageContent::Plain(text) => ContentView::Plain(text@),
            MessageContent::Multipart(parts) => ContentView::Multipart(part_views(parts@)),
        }
    }
}

impl View for ToolCall {
    type V = CallView;

    open spec fn view(&self) -> CallView {
        match self.content {
            ToolCallContent::Function { function } => CallView {
                id: self.id@,
                name: function.name@,
                arguments: function.arguments@,
            },
        }
    }
}

/// The calls of a message by their contents.
pub open spec fn call_views(calls: Seq<ToolCall>) -> Seq<CallView> {
    calls.map_values(|c: ToolCall| c@)
}

/// What an optional content says.
pub open spec fn opt_content(c: Option<MessageContent>) -> Option<ContentView> {
    match c {
        Some(content) => Some(content@),
        None => None,
    }
}

impl View for ChatMessage {
    type V = ChatView;

    open spec fn view(&self) -> ChatView {
        match *self {
            ChatMessage::Assistant { content, reasoning_content, tool_calls } => {
                ChatView::Assistant {
                    content: opt_content(content),
                    reasoning: text::opt_view(reasoning_content),
                    calls: call_views(tool_calls@),
                }
            },
            ChatMessage::User { content } => ChatView::User(content@),
            ChatMessage::System { content } => ChatView::System(content@),
            ChatMessage::Tool { content, tool_call_id } => ChatView::Tool {
                content: content@,
                id: tool_call_id@,
            },
        }
    }
}

/// The messages of a chat by their contents.
pub open spec fn chat_views(messages: Seq<ChatMessage>) -> Seq<ChatView> {
    messages.map_values(|m: ChatMessage| m@)
}

/// A tool by its contents.
pub struct ToolView {
    pub name: Seq<char>,
    pub description: Option<Seq<char>>,
    pub parameters: Option<json::Json>,
}

impl View for ToolDefinition {
    type V = ToolView;

    open spec fn view(&self) -> ToolView {
        match *self {
            ToolDefinition::Function { function } => ToolView {
                name: function.name@,
                description: text::opt_view(function.description),
                parameters: match function.parameters {
                    Some(v) => Some(json::json_of(v)),
                    None => None,
                },
            },
        }
    }
}

/// The tools of a request by their contents.
pub open spec fn tool_views(tools: Seq<ToolDefinition>) -> Seq<ToolView> {
    tools.map_values(|t: ToolDefinition| t@)
}

/// A request by its contents.
pub struct RequestView {
    pub model: Seq<char>,
    pub messages: Seq<ChatView>,
    pub stream: bool,
    pub max_tokens: Option<i32>,
    pub stop: Option<Seq<Seq<char>>>,
    pub temperature: Option<u32>,
    pub tools: Seq<ToolView>,
    pub tool_choice: Option<ToolChoice>,
    pub include_usage: Option<bool>,
    pub reasoning_effort: Option<Seq<char>>,
}

impl View for ChatCompletionRequest {
    type V = RequestView;

    open spec fn view(&self) -> RequestView {
        RequestView {
            model: self.model@,
            messages: chat_views(self.messages@),
            stream: self.stream,
            max_tokens: self.max_tokens,
            stop: match self.stop {
                Some(s) => Some(text::views(s@)),
                None => None,
            },
            temperature: self.temperature,
            tools: tool_views(self.tools@),
            tool_choice: self.tool_choice,
            include_usage: match self.stream_options {
                Some(o) => Some(o.include_usage),
                None => None,
            },
            reasoning_effort: text::opt_view(self.reasoning_effort),
        }
    }
}

// ---- content ----------------------------------------------------------------------------

/// A content with one part more. A first text alone stays plain.
pub open spec fn with_part(content: ContentView, part: PartView) -> ContentView {
    match content {
        ContentView::Plain(text) => ContentView::Multipart(seq![PartView::Text(text), part]),
        ContentView::Multipart(parts) => if parts.len() == 0 && part is Text {
            ContentView::Plain(part->Text_0)
        } else {
            ContentView::Multipart(parts.push(part))
        },
    }
}

/// The content that the given parts make: a single text is plain.
pub open spec fn content_of(parts: Seq<PartView>) -> ContentView {
    if parts.len() == 1 && parts[0] is Text {
        ContentView::Plain(parts[0]->Text_0)
    } else {
        ContentView::Multipart(parts)
    }
}

impl MessageContent {
    /// Adds a part.
    pub fn push_part(&mut self, part: MessagePart)
        ensures
            final(self)@ == with_part(old(self)@, part@),
    {
        let mut held = MessageContent::Plain(String::new());
        std::mem::swap(self, &mut held);
        match held {
            MessageContent::Plain(text) => {
                let mut parts: Vec<MessagePart> = Vec::new();
                parts.push(MessagePart::Text { text });
                parts.push(part);
                assert(part_views(parts@) =~= seq![PartView::Text(text@), part@]);
                *self = MessageContent::Multipart(parts);
            },
            MessageContent::Multipart(mut parts) => {
                let ghost before = parts@;
                if parts.len() == 0 {
                    match part {
                        MessagePart::Text { text } => {
                            *self = MessageContent::Plain(text);
                        },
                        MessagePart::Image { image_url } => {
                            let image = MessagePart::Image { image_url };
                            parts.push(image);
                            assert(part_views(parts@) =~= part_views(before).push(part@));
                            *self = MessageContent::Multipart(parts);
                        },
                    }
                } else {
                    parts.push(part);
                    assert(part_views(parts@) =~= part_views(before).push(part@));
                    *self = MessageContent::Multipart(parts);
                }
            },
        }
    }
}

impl vstd::std_specs::convert::FromSpecImpl<Vec<MessagePart>> for MessageContent {
    open spec fn obeys_from_spec() -> bool {
        true
    }

    open spec fn from_spec(parts: Vec<MessagePart>) -> MessageContent {
        match parts@[0] {
            MessagePart::Text { text } if parts@.len() == 1 => MessageContent::Plain(text),
            _ => MessageContent::Multipart(parts),
        }
    }
}

impl From<Vec<MessagePart>> for MessageContent {
    fn from(parts: Vec<MessagePart>) -> (content: MessageContent) {
        let mut parts = parts;
        if parts.len() == 1 {
            if let MessagePart::Text { .. } = parts[0] {
                if let Some(MessagePart::Text { text }) = parts.pop() {
                    return MessageContent::Plain(text);
                }
            }
        }
        MessageContent::Multipart(parts)
    }
}

/// The content made of a list of parts is what those parts say.
pub proof fn law_from_parts(parts: Vec<MessagePart>)
    ensures
        <MessageContent as vstd::std_specs::convert::FromSpec<Vec<MessagePart>>>::from_spec(
            parts,
        )@ == content_of(part_views(parts@)),
{
}

/// A text part and then any other part added to an empty content make the
/// same content as those two parts at once.
pub proof fn law_parts_add_up(first: Seq<char>, second: PartView)
    ensures
        with_part(with_part(ContentView::Multipart(Seq::empty()), PartView::Text(first)), second)
            == content_of(seq![PartView::Text(first), second]),
{
}

/// The parts that a content holds.
pub open spec fn parts_held(content: ContentView) -> Seq<PartView> {
    match content {
        ContentView::Plain(text) => seq![PartView::Text(text)],
        ContentView::Multipart(parts) => parts,
    }
}

/// A part that is added comes behind those that the content held, all of which
/// stay; and a content made of parts holds those.
pub proof fn law_parts_are_kept(content: ContentView, part: PartView, parts: Seq<PartView>)
    ensures
        parts_held(with_part(content, part)) == parts_held(content).push(part),
        parts_held(content_of(parts)) == parts,
{
    assert(parts_held(with_part(content, part)) =~= parts_held(content).push(part));
    assert(parts_held(content_of(parts)) =~= parts);
}

/// A part that is pushed comes last, and nothing that was there is lost.
pub proof fn law_pushed_part_comes_last(c: &mut MessageContent, part: MessagePart)
    requires
        call_ensures(MessageContent::push_part, (c, part), ()),
    ensures
        parts_held(final(c)@) == parts_held(old(c)@).push(part@),
{
    law_parts_are_kept(old(c)@, part@, Seq::empty());
}

/// What was read of a line is handed on: a piece of the completion as it is, or
/// the message of the error.
pub proof fn law_stream_result_is_handed_on(
    parsed: Result<ResponseStreamResult, String>,
    r: Result<ResponseStreamEvent, String>,
)
    requires
        call_ensures(stream_result, (parsed,), r),
    ensures
        parsed matches Ok(ResponseStreamResult::Event(event)) ==> r == Ok::<
            ResponseStreamEvent,
            String,
        >(event),
        parsed matches Ok(ResponseStreamResult::Failure { error }) ==> r is Err && r->Err_0@
            == error.message@,
        parsed matches Err(error) ==> r is Err && r->Err_0@ == error@,
{
}

} // verus!
