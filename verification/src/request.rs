//! From a conversation of the editor to a request of the gateway.
use crate::chat;
use crate::chat::{
    ChatCompletionRequest, ChatMessage, FunctionContent, FunctionDefinition, ImageUrl,
    MessageContent, MessagePart, StreamOptions, ToolCall, ToolCallContent, ToolChoice,
    ToolDefinition,
};
use crate::effort;
use crate::effort::{effort_config_for, resolve_effort};
use crate::json;
use crate::json::write_json;
use crate::text;
use crate::text::{copy_str, to_lowercase};
use vstd::prelude::*;

verus! {

/// Who speaks.
#[derive(Clone, Copy, Debug, PartialEq, Eq, Structural)]
pub enum Role {
    User,
    Assistant,
    System,
}

/// The input of a tool call.
pub enum ToolUseInput {
    Json(serde_json::Value),
    Custom,
}

/// A part of the result of a tool.
pub enum ToolResultContent {
    Text(String),
    /// An image, by its data URL.
    Image { url: String },
}

/// A part of a message of the conversation.
pub enum RequestContent {
    Text(String),
    Thinking { text: String },
    RedactedThinking,
    Compaction,
    /// An image, by its data URL.
    Image { url: String },
    ToolUse { id: String, name: String, input: ToolUseInput },
    ToolResult { tool_use_id: String, content: Vec<ToolResultContent> },
}

/// A message of the conversation.
pub struct RequestMessage {
    pub role: Role,
    pub content: Vec<RequestContent>,
}

/// How a tool takes its input.
pub enum RequestToolInput {
    Function { input_schema: serde_json::Value },
    Custom,
}

/// A tool of the conversation.
pub struct RequestTool {
    pub name: String,
    pub description: String,
    pub input: RequestToolInput,
}

/// How the model may use tools.
#[derive(Clone, Copy, Debug, PartialEq, Eq, Structural)]
pub enum LanguageModelToolChoice {
    Auto,
    Any,
    Never,
}

/// A conversation that a model is to continue.
pub struct LanguageModelRequest {
    pub messages: Vec<RequestMessage>,
    pub tools: Vec<RequestTool>,
    pub tool_choice: Option<LanguageModelToolChoice>,
    pub stop: Vec<String>,
    /// The bits of the single-precision number.
    pub temperature: Option<u32>,
    pub thinking_allowed: bool,
    pub thinking_effort: Option<String>,
    /// Whether a tool or a call in it has an input that is not JSON.
    pub contains_custom_tool_input: bool,
}

/// What a model can do, as far as the server tells it.
#[derive(Clone, Copy, Debug, PartialEq, Eq, Structural)]
pub struct LiveCapabilities {
    pub max_tokens: u64,
    pub supports_tools: bool,
    pub supports_thinking: bool,
}

/// Why a conversation cannot be sent.
#[derive(Clone, Copy, Debug, PartialEq, Eq, Structural)]
pub enum RequestError {
    CustomTools,
    CustomToolCalls,
}

impl RequestError {
    /// The error in words.
    pub fn message(&self) -> (r: &'static str)
        ensures
            r@ == match *self {
                RequestError::CustomTools => "GLM does not support custom tools"@,
                RequestError::CustomToolCalls => "GLM does not support custom tool calls"@,
            },
    {
        match *self {
            RequestError::CustomTools => "GLM does not support custom tools",
            RequestError::CustomToolCalls => "GLM does not support custom tool calls",
        }
    }
}

// ---- adding to messages -----------------------------------------------------------------

/// A reasoning text with more of it; an empty one adds nothing.
pub open spec fn with_reasoning(target: Option<Seq<char>>, more: Option<Seq<char>>) -> Option<
    Seq<char>,
> {
    match more {
        Some(c) if c.len() > 0 => Some(
            match target {
                Some(t) => t + c,
                None => c,
            },
        ),
        _ => target,
    }
}

/// Adds to a reasoning text; an empty one adds nothing.
pub fn append_reasoning_content(target: &mut Option<String>, content: Option<String>)
    ensures
        text::opt_view(*final(target)) == with_reasoning(
            text::opt_view(*old(target)),
            text::opt_view(content),
        ),
{
    if let Some(content) = content {
        if !content.as_str().is_empty() {
            let held = target.take();
            match held {
                Some(mut t) => {
                    t.append(content.as_str());
                    *target = Some(t);
                },
                None => {
                    *target = Some(content);
                },
            }
        }
    }
}

/// A new message with one part.
pub open spec fn new_message(
    role: Role,
    part: chat::PartView,
    reasoning: Option<Seq<char>>,
) -> chat::ChatView {
    let content = chat::content_of(seq![part]);
    match role {
        Role::User => chat::ChatView::User(content),
        Role::System => chat::ChatView::System(content),
        Role::Assistant => chat::ChatView::Assistant {
            content: Some(content),
            reasoning,
            calls: Seq::empty(),
        },
    }
}

/// A message with one part more, if `role` may add to it.
pub open spec fn grown_message(
    last: chat::ChatView,
    role: Role,
    part: chat::PartView,
    reasoning: Option<Seq<char>>,
) -> Option<chat::ChatView> {
    match (role, last) {
        (Role::User, chat::ChatView::User(c)) => Some(
            chat::ChatView::User(chat::with_part(c, part)),
        ),
        (Role::System, chat::ChatView::System(c)) => Some(
            chat::ChatView::System(chat::with_part(c, part)),
        ),
        (Role::Assistant, chat::ChatView::Assistant { content: Some(c), reasoning: r, calls }) => Some(
            chat::ChatView::Assistant {
                content: Some(chat::with_part(c, part)),
                reasoning: with_reasoning(r, reasoning),
                calls,
            },
        ),
        _ => None,
    }
}

/// The messages with one part more: it goes to the last message where that is
/// of the same role and says something, else to a new one.
pub open spec fn with_content(
    messages: Seq<chat::ChatView>,
    role: Role,
    part: chat::PartView,
    reasoning: Option<Seq<char>>,
) -> Seq<chat::ChatView> {
    if messages.len() > 0 && grown_message(messages.last(), role, part, reasoning) is Some {
        messages.drop_last().push(grown_message(messages.last(), role, part, reasoning)->0)
    } else {
        messages.push(new_message(role, part, reasoning))
    }
}

/// A message with one part.
fn start_message(role: Role, part: MessagePart, reasoning: Option<String>) -> (m: ChatMessage)
    ensures
        m@ == new_message(role, part@, text::opt_view(reasoning)),
{
    let ghost view = part@;
    let mut parts: Vec<MessagePart> = Vec::new();
    parts.push(part);
    proof {
        chat::law_from_parts(parts);
        assert(chat::part_views(parts@) =~= seq![view]);
    }
    let content = MessageContent::from(parts);
    match role {
        Role::User => ChatMessage::User { content },
        Role::System => ChatMessage::System { content },
        Role::Assistant => {
            let tool_calls: Vec<ToolCall> = Vec::new();
            assert(chat::call_views(tool_calls@) =~= Seq::empty());
            ChatMessage::Assistant {
                content: Some(content),
                reasoning_content: reasoning,
                tool_calls,
            }
        },
    }
}

/// Adds a part to the messages.
pub fn add_message_content_part(
    new_part: MessagePart,
    role: Role,
    messages: &mut Vec<ChatMessage>,
    reasoning_content: Option<String>,
)
    ensures
        chat::chat_views(final(messages)@) == with_content(
            chat::chat_views(old(messages)@),
            role,
            new_part@,
            text::opt_view(reasoning_content),
        ),
{
    let ghost before = messages@;
    let ghost views = chat::chat_views(before);
    let ghost part = new_part@;
    let ghost reasoning = text::opt_view(reasoning_content);
    match messages.pop() {
        None => {
            let m = start_message(role, new_part, reasoning_content);
            messages.push(m);
            assert(chat::chat_views(messages@) =~= views.push(m@));
        },
        Some(last) => {
            let ghost last_view = last@;
            let ghost kept = messages@;
            proof {
                assert(chat::chat_views(kept) =~= views.drop_last());
                assert(views.last() == last_view);
            }
            let ghost grown = grown_message(last_view, role, part, reasoning);
            match (role, last) {
                (Role::User, ChatMessage::User { mut content }) => {
                    content.push_part(new_part);
                    let m = ChatMessage::User { content };
                    messages.push(m);
                    assert(chat::chat_views(messages@) =~= views.drop_last().push(grown->0));
                },
                (Role::System, ChatMessage::System { mut content }) => {
                    content.push_part(new_part);
                    let m = ChatMessage::System { content };
                    messages.push(m);
                    assert(chat::chat_views(messages@) =~= views.drop_last().push(grown->0));
                },
                (
                    Role::Assistant,
                    ChatMessage::Assistant {
                        content: Some(mut content),
                        reasoning_content: mut message_reasoning,
                        tool_calls,
                    },
                ) => {
                    append_reasoning_content(&mut message_reasoning, reasoning_content);
                    content.push_part(new_part);
                    let m = ChatMessage::Assistant {
                        content: Some(content),
                        reasoning_content: message_reasoning,
                        tool_calls,
                    };
                    messages.push(m);
                    assert(chat::chat_views(messages@) =~= views.drop_last().push(grown->0));
                },
                (role, last) => {
                    messages.push(last);
                    assert(messages@ =~= before);
                    let m = start_message(role, new_part, reasoning_content);
                    messages.push(m);
                    assert(chat::chat_views(messages@) =~= views.push(m@));
                },
            }
        },
    }
}

/// The messages with one tool call more: it goes to the last message where
/// that is the assistant's, else to a new one.
pub open spec fn with_call(
    messages: Seq<chat::ChatView>,
    call: chat::CallView,
    reasoning: Option<Seq<char>>,
) -> Seq<chat::ChatView> {
    match messages.last() {
        chat::ChatView::Assistant { content, reasoning: r, calls } if messages.len()
            > 0 => messages.drop_last().push(
            chat::ChatView::Assistant {
                content,
                reasoning: with_reasoning(r, reasoning),
                calls: calls.push(call),
            },
        ),
        _ => messages.push(
            chat::ChatView::Assistant { content: None, reasoning, calls: seq![call] },
        ),
    }
}

/// Adds a tool call to the messages.
fn add_tool_call(call: ToolCall, messages: &mut Vec<ChatMessage>, reasoning: Option<String>)
    ensures
        chat::chat_views(final(messages)@) == with_call(
            chat::chat_views(old(messages)@),
            call@,
            text::opt_view(reasoning),
        ),
{
    let ghost before = messages@;
    let ghost views = chat::chat_views(before);
    let ghost call_view = call@;
    let last = messages.pop();
    proof {
        if last is Some {
            assert(chat::chat_views(messages@) =~= views.drop_last());
            assert(views.last() == last->0@);
        }
    }
    match last {
        Some(ChatMessage::Assistant { content, reasoning_content: mut held, mut tool_calls }) => {
            let ghost calls = chat::call_views(tool_calls@);
            append_reasoning_content(&mut held, reasoning);
            tool_calls.push(call);
            assert(chat::call_views(tool_calls@) =~= calls.push(call_view));
            messages.push(ChatMessage::Assistant { content, reasoning_content: held, tool_calls });
            assert(chat::chat_views(messages@) =~= with_call(
                views,
                call_view,
                text::opt_view(reasoning),
            ));
        },
        other => {
            if let Some(m) = other {
                messages.push(m);
            }
            assert(messages@ =~= before);
            let mut tool_calls: Vec<ToolCall> = Vec::new();
            tool_calls.push(call);
            assert(chat::call_views(tool_calls@) =~= seq![call_view]);
            messages.push(
                ChatMessage::Assistant { content: None, reasoning_content: reasoning, tool_calls },
            );
            assert(chat::chat_views(messages@) =~= with_call(
                views,
                call_view,
                text::opt_view(reasoning),
            ));
        },
    }
}

// ---- the conversation -----------------------------------------------------------------

/// The part that an image is.
pub open spec fn image_part(url: Seq<char>) -> chat::PartView {
    chat::PartView::Image { url, detail: None }
}

fn image(url: &str) -> (p: MessagePart)
    ensures
        p@ == image_part(url@),
{
    MessagePart::Image { image_url: ImageUrl { url: copy_str(url), detail: None } }
}

/// The parts of the result of a tool; images are left out where the model
/// does not take them.
pub open spec fn result_parts(content: Seq<ToolResultContent>, images: bool) -> Seq<chat::PartView>
    decreases content.len(),
{
    if content.len() == 0 {
        Seq::empty()
    } else {
        let before = result_parts(content.drop_last(), images);
        match content.last() {
            ToolResultContent::Text(t) => before.push(chat::PartView::Text(t@)),
            ToolResultContent::Image { url } => if images {
                before.push(image_part(url@))
            } else {
                before
            },
        }
    }
}

fn tool_result_parts(content: &Vec<ToolResultContent>, images: bool) -> (parts: Vec<MessagePart>)
    ensures
        chat::part_views(parts@) == result_parts(content@, images),
{
    let mut parts: Vec<MessagePart> = Vec::new();
    let mut i: usize = 0;
    assert(chat::part_views(parts@) =~= Seq::empty());
    while i < content.len()
        invariant
            i <= content@.len(),
            chat::part_views(parts@) == result_parts(content@.take(i as int), images),
        decreases content@.len() - i,
    {
        let ghost before = chat::part_views(parts@);
        let ghost now = content@.take(i + 1);
        assert(now.drop_last() =~= content@.take(i as int));
        match &content[i] {
            ToolResultContent::Text(t) => {
                parts.push(MessagePart::Text { text: copy_str(t.as_str()) });
                assert(chat::part_views(parts@) =~= before.push(chat::PartView::Text(t@)));
            },
            ToolResultContent::Image { url } => {
                if images {
                    parts.push(image(url.as_str()));
                    assert(chat::part_views(parts@) =~= before.push(image_part(url@)));
                }
            },
        }
        i = i + 1;
    }
    assert(content@.take(content@.len() as int) =~= content@);
    parts
}

/// What has been made of a conversation: the messages, and the reasoning of
/// the message at hand that no part has taken yet.
pub struct Progress {
    pub messages: Seq<chat::ChatView>,
    pub reasoning: Option<Seq<char>>,
}

/// What the model takes.
pub struct Abilities {
    pub images: bool,
    pub thinking: bool,
}

/// What a text or an image part makes of a conversation: the assistant's part
/// takes the reasoning with it where the model thinks.
pub open spec fn after_part(
    p: Progress,
    role: Role,
    part: chat::PartView,
    a: Abilities,
) -> Progress {
    if a.thinking && role == Role::Assistant {
        Progress {
            messages: with_content(p.messages, role, part, p.reasoning),
            reasoning: None,
        }
    } else {
        Progress { messages: with_content(p.messages, role, part, None), reasoning: p.reasoning }
    }
}

/// What one item of a message makes of a conversation.
pub open spec fn after_item(p: Progress, role: Role, item: RequestContent, a: Abilities) -> Progress {
    match item {
        RequestContent::Text(t) => after_part(p, role, chat::PartView::Text(t@), a),
        RequestContent::Thinking { text } => if a.thinking && role == Role::Assistant {
            Progress { reasoning: with_reasoning(p.reasoning, Some(text@)), ..p }
        } else {
            p
        },
        RequestContent::RedactedThinking => p,
        RequestContent::Compaction => p,
        RequestContent::Image { url } => if a.images {
            after_part(p, role, image_part(url@), a)
        } else {
            p
        },
        RequestContent::ToolUse { id, name, input } => match input {
            ToolUseInput::Json(v) => Progress {
                messages: with_call(
                    p.messages,
                    chat::CallView {
                        id: id@,
                        name: name@,
                        arguments: json::json_text(json::json_of(v)),
                    },
                    p.reasoning,
                ),
                reasoning: None,
            },
            ToolUseInput::Custom => p,
        },
        RequestContent::ToolResult { tool_use_id, content } => Progress {
            messages: p.messages.push(
                chat::ChatView::Tool {
                    content: chat::content_of(result_parts(content@, a.images)),
                    id: tool_use_id@,
                },
            ),
            ..p
        },
    }
}

/// What the items of a message make of a conversation, one after the other.
pub open spec fn after_items(
    p: Progress,
    role: Role,
    items: Seq<RequestContent>,
    a: Abilities,
) -> Progress
    decreases items.len(),
{
    if items.len() == 0 {
        p
    } else {
        after_item(after_items(p, role, items.drop_last(), a), role, items.last(), a)
    }
}

/// The messages that a conversation is sent as. Reasoning that no part of its
/// message took is left out.
pub open spec fn chat_of(messages: Seq<RequestMessage>, a: Abilities) -> Seq<chat::ChatView>
    decreases messages.len(),
{
    if messages.len() == 0 {
        Seq::empty()
    } else {
        let p = Progress { messages: chat_of(messages.drop_last(), a), reasoning: None };
        after_items(p, messages.last().role, messages.last().content@, a).messages
    }
}

/// An item that calls a tool with an input that is not JSON.
pub open spec fn is_custom_call(item: RequestContent) -> bool {
    item matches RequestContent::ToolUse { input: ToolUseInput::Custom, .. }
}

/// A message that calls a tool with an input that is not JSON.
pub open spec fn has_custom_call(m: RequestMessage) -> bool {
    exists|i: int| 0 <= i < m.content@.len() && is_custom_call(#[trigger] m.content@[i])
}

/// A conversation in which a tool is called with an input that is not JSON.
pub open spec fn any_custom_call(messages: Seq<RequestMessage>) -> bool {
    exists|i: int| 0 <= i < messages.len() && has_custom_call(#[trigger] messages[i])
}

/// A tool that takes an input that is not JSON.
pub open spec fn is_custom_tool(t: RequestTool) -> bool {
    t.input is Custom
}

/// A list of tools one of which takes an input that is not JSON.
pub open spec fn any_custom_tool(tools: Seq<RequestTool>) -> bool {
    exists|i: int| 0 <= i < tools.len() && is_custom_tool(#[trigger] tools[i])
}

/// A tool as it is sent.
pub open spec fn sent_tool(t: RequestTool) -> chat::ToolView {
    chat::ToolView {
        name: t.name@,
        description: Some(t.description@),
        parameters: match t.input {
            RequestToolInput::Function { input_schema } => Some(json::json_of(input_schema)),
            RequestToolInput::Custom => None,
        },
    }
}

/// How the model may use tools, as it is sent.
pub open spec fn sent_choice(c: LanguageModelToolChoice) -> ToolChoice {
    match c {
        LanguageModelToolChoice::Auto => ToolChoice::Auto,
        LanguageModelToolChoice::Any => ToolChoice::Required,
        LanguageModelToolChoice::Never => ToolChoice::Never,
    }
}

/// The tools that are sent: none where the model takes none.
pub open spec fn sent_tools(tools: Seq<RequestTool>, supports_tools: bool) -> Seq<chat::ToolView> {
    if supports_tools {
        tools.map_values(|t: RequestTool| sent_tool(t))
    } else {
        Seq::empty()
    }
}

/// Why a conversation cannot be sent.
pub open spec fn refusal(r: LanguageModelRequest, supports_tools: bool) -> Option<RequestError> {
    if r.contains_custom_tool_input {
        Some(RequestError::CustomTools)
    } else if any_custom_call(r.messages@) {
        Some(RequestError::CustomToolCalls)
    } else if supports_tools && any_custom_tool(r.tools@) {
        Some(RequestError::CustomTools)
    } else {
        None
    }
}

/// What is sent for a conversation, given the levels of reasoning effort that
/// the model offers.
pub open spec fn sent_request(
    model_name: Seq<char>,
    images: bool,
    capabilities: LiveCapabilities,
    config: Option<effort::EffortView>,
    r: LanguageModelRequest,
) -> chat::RequestView {
    let a = Abilities {
        images,
        thinking: capabilities.supports_thinking || config is Some,
    };
    let tools = sent_tools(r.tools@, capabilities.supports_tools);
    chat::RequestView {
        model: model_name,
        messages: chat_of(r.messages@, a),
        stream: true,
        max_tokens: None,
        stop: if r.stop@.len() == 0 {
            None
        } else {
            Some(text::views(r.stop@))
        },
        temperature: r.temperature,
        tools,
        tool_choice: match r.tool_choice {
            Some(c) if tools.len() > 0 => Some(sent_choice(c)),
            _ => None,
        },
        include_usage: Some(true),
        reasoning_effort: effort::chosen_effort(
            config,
            r.thinking_allowed,
            text::opt_view(r.thinking_effort),
        ),
    }
}

/// Adds an item of a message to what has been made of the conversation.
/// Fails where it calls a tool with an input that is not JSON.
fn add_item(
    item: &RequestContent,
    role: Role,
    supports_images: bool,
    supports_thinking: bool,
    messages: &mut Vec<ChatMessage>,
    reasoning: &mut Option<String>,
) -> (ok: bool)
    ensures
        ok == !is_custom_call(*item),
        ok ==> ({
            let p = Progress {
                messages: chat::chat_views(old(messages)@),
                reasoning: text::opt_view(*old(reasoning)),
            };
            let a = Abilities { images: supports_images, thinking: supports_thinking };
            let q = after_item(p, role, *item, a);
            &&& chat::chat_views(final(messages)@) == q.messages
            &&& text::opt_view(*final(reasoning)) == q.reasoning
        }),
{
    let thinks = supports_thinking && role == Role::Assistant;
    match item {
        RequestContent::Text(t) => {
            let part = MessagePart::Text { text: copy_str(t.as_str()) };
            let taken = if thinks {
                reasoning.take()
            } else {
                None
            };
            add_message_content_part(part, role, messages, taken);
        },
        RequestContent::Thinking { text } => {
            if thinks {
                append_reasoning_content(reasoning, Some(copy_str(text.as_str())));
            }
        },
        RequestContent::RedactedThinking => {},
        RequestContent::Compaction => {},
        RequestContent::Image { url } => {
            if supports_images {
                let taken = if thinks {
                    reasoning.take()
                } else {
                    None
                };
                add_message_content_part(image(url.as_str()), role, messages, taken);
            }
        },
        RequestContent::ToolUse { id, name, input } => match input {
            ToolUseInput::Custom => {
                return false;
            },
            ToolUseInput::Json(value) => {
                let call = ToolCall {
                    id: copy_str(id.as_str()),
                    content: ToolCallContent::Function {
                        function: FunctionContent {
                            name: copy_str(name.as_str()),
                            arguments: write_json(value),
                        },
                    },
                };
                let taken = reasoning.take();
                add_tool_call(call, messages, taken);
            },
        },
        RequestContent::ToolResult { tool_use_id, content } => {
            let ghost before = messages@;
            let parts = tool_result_parts(content, supports_images);
            proof {
                chat::law_from_parts(parts);
            }
            let m = ChatMessage::Tool {
                content: MessageContent::from(parts),
                tool_call_id: copy_str(tool_use_id.as_str()),
            };
            messages.push(m);
            assert(chat::chat_views(messages@) =~= chat::chat_views(before).push(m@));
        },
    }
    true
}

/// Adds a message of the conversation. Fails where it calls a tool with an
/// input that is not JSON.
fn add_message(
    message: &RequestMessage,
    supports_images: bool,
    supports_thinking: bool,
    messages: &mut Vec<ChatMessage>,
) -> (ok: bool)
    ensures
        ok == !has_custom_call(*message),
        ok ==> ({
            let p = Progress { messages: chat::chat_views(old(messages)@), reasoning: None };
            let a = Abilities { images: supports_images, thinking: supports_thinking };
            chat::chat_views(final(messages)@) == after_items(
                p,
                message.role,
                message.content@,
                a,
            ).messages
        }),
{
    let ghost p = Progress { messages: chat::chat_views(messages@), reasoning: None };
    let ghost a = Abilities { images: supports_images, thinking: supports_thinking };
    let ghost items = message.content@;
    let mut reasoning: Option<String> = None;
    let mut i: usize = 0;
    while i < message.content.len()
        invariant
            i <= items.len(),
            items == message.content@,
            a == (Abilities { images: supports_images, thinking: supports_thinking }),
            forall|k: int| 0 <= k < i ==> !is_custom_call(#[trigger] items[k]),
            chat::chat_views(messages@) == after_items(
                p,
                message.role,
                items.take(i as int),
                a,
            ).messages,
            text::opt_view(reasoning) == after_items(
                p,
                message.role,
                items.take(i as int),
                a,
            ).reasoning,
        decreases items.len() - i,
    {
        proof {
            assert(items.take(i + 1).drop_last() =~= items.take(i as int));
        }
        if !add_item(
            &message.content[i],
            message.role,
            supports_images,
            supports_thinking,
            messages,
            &mut reasoning,
        ) {
            assert(is_custom_call(message.content@[i as int]));
            return false;
        }
        i = i + 1;
    }
    assert(items.take(items.len() as int) =~= items);
    true
}

/// The tools as they are sent; nothing where one takes an input that is not
/// JSON.
fn convert_tools(tools: Vec<RequestTool>) -> (r: Option<Vec<ToolDefinition>>)
    ensures
        r is Some <==> !any_custom_tool(tools@),
        r matches Some(out) ==> chat::tool_views(out@) == sent_tools(tools@, true),
{
    let ghost all = tools@;
    let mut out: Vec<ToolDefinition> = Vec::new();
    for tool in it: tools.into_iter()
        invariant
            it.seq() == all,
            forall|k: int| 0 <= k < it.index() ==> !is_custom_tool(#[trigger] all[k]),
            chat::tool_views(out@) == sent_tools(all, true).take(it.index()),
    {
        let ghost i = it.index();
        let ghost view = sent_tool(tool);
        let ghost before = chat::tool_views(out@);
        assert(all[i] == tool);
        match tool.input {
            RequestToolInput::Custom => {
                assert(is_custom_tool(all[i]));
                return None;
            },
            RequestToolInput::Function { input_schema } => {
                out.push(
                    ToolDefinition::Function {
                        function: FunctionDefinition {
                            name: tool.name,
                            description: Some(tool.description),
                            parameters: Some(input_schema),
                        },
                    },
                );
                assert(chat::tool_views(out@) =~= before.push(view));
                assert(sent_tools(all, true).take(i + 1) =~= before.push(view));
            },
        }
    }
    assert(sent_tools(all, true).take(all.len() as int) =~= sent_tools(all, true));
    Some(out)
}

/// A result by its contents.
pub open spec fn built_view(r: Result<ChatCompletionRequest, RequestError>) -> Result<
    chat::RequestView,
    RequestError,
> {
    match r {
        Ok(request) => Ok(request@),
        Err(e) => Err(e),
    }
}

/// What is sent for a conversation, or why it cannot be sent.
pub open spec fn built(
    model_name: Seq<char>,
    images: bool,
    capabilities: LiveCapabilities,
    config: Option<effort::EffortView>,
    r: LanguageModelRequest,
) -> Result<chat::RequestView, RequestError> {
    match refusal(r, capabilities.supports_tools) {
        Some(e) => Err(e),
        None => Ok(sent_request(model_name, images, capabilities, config, r)),
    }
}

/// What is sent for a conversation with a model, given the model's name in
/// lower case.
pub fn build_glm_request_given(
    model_name: &str,
    lowered: &str,
    supports_images: bool,
    capabilities: LiveCapabilities,
    request: LanguageModelRequest,
) -> (r: Result<ChatCompletionRequest, RequestError>)
    ensures
        built_view(r) == built(
            model_name@,
            supports_images,
            capabilities,
            effort::effort_of(lowered@),
            request,
        ),
        r matches Ok(q) ==> conveys(
            q@,
            model_name@,
            supports_images,
            capabilities,
            request,
        ),
{
    proof {
        law_request_conveys_what_was_asked(
            model_name@,
            supports_images,
            capabilities,
            effort::effort_of(lowered@),
            request,
        );
    }
    if request.contains_custom_tool_input {
        return Err(RequestError::CustomTools);
    }
    let config = effort_config_for(lowered);
    let supports_thinking = capabilities.supports_thinking || config.is_some();
    let reasoning_effort = resolve_effort(
        &config,
        request.thinking_allowed,
        &request.thinking_effort,
    );
    let ghost a = Abilities { images: supports_images, thinking: supports_thinking };
    let ghost all = request.messages@;
    let mut messages: Vec<ChatMessage> = Vec::new();
    let mut i: usize = 0;
    assert(chat::chat_views(messages@) =~= Seq::empty());
    let refused = {
        let mut custom = false;
        while i < request.messages.len() && !custom
            invariant
                i <= all.len(),
                all == request.messages@,
                a == (Abilities { images: supports_images, thinking: supports_thinking }),
                custom ==> any_custom_call(all),
                !custom ==> forall|k: int| 0 <= k < i ==> !has_custom_call(#[trigger] all[k]),
                !custom ==> chat::chat_views(messages@) == chat_of(all.take(i as int), a),
            decreases all.len() - i, (if custom { 0int } else { 1int }),
        {
            assert(all.take(i + 1).drop_last() =~= all.take(i as int));
            if add_message(
                &request.messages[i],
                supports_images,
                supports_thinking,
                &mut messages,
            ) {
                i = i + 1;
            } else {
                assert(has_custom_call(all[i as int]));
                custom = true;
            }
        }
        custom
    };
    if refused {
        return Err(RequestError::CustomToolCalls);
    }
    assert(all.take(all.len() as int) =~= all);
    let tools: Vec<ToolDefinition> = if capabilities.supports_tools {
        match convert_tools(request.tools) {
            Some(tools) => tools,
            None => {
                return Err(RequestError::CustomTools);
            },
        }
    } else {
        Vec::new()
    };
    assert(chat::tool_views(tools@) =~= sent_tools(request.tools@, capabilities.supports_tools));
    let tool_choice = if tools.len() == 0 {
        None
    } else {
        match request.tool_choice {
            Some(LanguageModelToolChoice::Auto) => Some(ToolChoice::Auto),
            Some(LanguageModelToolChoice::Any) => Some(ToolChoice::Required),
            Some(LanguageModelToolChoice::Never) => Some(ToolChoice::Never),
            None => None,
        }
    };
    let stop = if request.stop.len() == 0 {
        None
    } else {
        Some(request.stop)
    };
    Ok(
        ChatCompletionRequest {
            model: copy_str(model_name),
            messages,
            stream: true,
            max_tokens: None,
            stop,
            temperature: request.temperature,
            tools,
            tool_choice,
            stream_options: Some(StreamOptions { include_usage: true }),
            reasoning_effort,
        },
    )
}

/// What is sent for a conversation with a model.
pub fn build_glm_request(
    model_name: &str,
    supports_images: bool,
    capabilities: LiveCapabilities,
    request: LanguageModelRequest,
) -> (r: Result<ChatCompletionRequest, RequestError>)
    ensures
        built_view(r) == built(
            model_name@,
            supports_images,
            capabilities,
            effort::effort_of(text::lowercase(model_name@)),
            request,
        ),
        r matches Ok(q) ==> conveys(
            q@,
            model_name@,
            supports_images,
            capabilities,
            request,
        ),
{
    proof {
        law_request_conveys_what_was_asked(
            model_name@,
            supports_images,
            capabilities,
            effort::effort_of(text::lowercase(model_name@)),
            request,
        );
    }
    let lowered = to_lowercase(model_name);
    build_glm_request_given(model_name, lowered.as_str(), supports_images, capabilities, request)
}

// ---- laws -----------------------------------------------------------------------------

/// A content without images.
pub open spec fn is_imageless(c: chat::ContentView) -> bool {
    c matches chat::ContentView::Multipart(parts) ==> forall|i: int|
        0 <= i < parts.len() ==> (#[trigger] parts[i]) is Text
}

/// A message without images.
pub open spec fn has_no_image(m: chat::ChatView) -> bool {
    match m {
        chat::ChatView::Assistant { content: Some(c), .. } => is_imageless(c),
        chat::ChatView::Assistant { content: None, .. } => true,
        chat::ChatView::User(c) => is_imageless(c),
        chat::ChatView::System(c) => is_imageless(c),
        chat::ChatView::Tool { content, .. } => is_imageless(content),
    }
}

/// A message without reasoning.
pub open spec fn has_no_reasoning(m: chat::ChatView) -> bool {
    m matches chat::ChatView::Assistant { reasoning, .. } ==> reasoning is None
}

/// Two messages that one after the other would have been one: both of the
/// user or both of the system.
pub open spec fn mergeable(a: chat::ChatView, b: chat::ChatView) -> bool {
    (a is User && b is User) || (a is System && b is System)
}

/// What holds of all messages made of a conversation.
spec fn sound(p: Progress, a: Abilities) -> bool {
    &&& !a.images ==> forall|i: int|
        0 <= i < p.messages.len() ==> has_no_image(#[trigger] p.messages[i])
    &&& !a.thinking ==> p.reasoning is None && forall|i: int|
        0 <= i < p.messages.len() ==> has_no_reasoning(#[trigger] p.messages[i])
    &&& forall|i: int, j: int|
        0 <= i && j == i + 1 && j < p.messages.len() ==> !mergeable(
            #[trigger] p.messages[i],
            #[trigger] p.messages[j],
        )
}

proof fn lemma_result_imageless(content: Seq<ToolResultContent>)
    ensures
        forall|i: int|
            0 <= i < result_parts(content, false).len() ==> (#[trigger] result_parts(
                content,
                false,
            )[i]) is Text,
    decreases content.len(),
{
    if content.len() > 0 {
        lemma_result_imageless(content.drop_last());
    }
}

proof fn lemma_part_sound(p: Progress, role: Role, part: chat::PartView, a: Abilities)
    requires
        sound(p, a),
        !a.images ==> part is Text,
    ensures
        sound(after_part(p, role, part, a), a),
{
    let reasoning = if a.thinking && role == Role::Assistant {
        p.reasoning
    } else {
        None
    };
    let n = p.messages.len();
    let q = with_content(p.messages, role, part, reasoning);
    if n > 0 && grown_message(p.messages.last(), role, part, reasoning) is Some {
        let g = grown_message(p.messages.last(), role, part, reasoning)->0;
        assert(forall|i: int| 0 <= i < n - 1 ==> q[i] == p.messages[i]);
        assert(q[n - 1] == g);
        if !a.images {
            assert(has_no_image(p.messages[n - 1]));
            assert(has_no_image(g));
        }
        if !a.thinking {
            assert(has_no_reasoning(p.messages[n - 1]));
        }
        if n > 1 {
            assert(!mergeable(p.messages[n - 2], p.messages[n - 1]));
        }
    } else {
        assert(forall|i: int| 0 <= i < n ==> q[i] == p.messages[i]);
        let m = new_message(role, part, reasoning);
        assert(q[n as int] == m);
        if n > 0 {
            assert(!mergeable(p.messages[n - 1], m));
        }
    }
}

proof fn lemma_item_sound(p: Progress, role: Role, item: RequestContent, a: Abilities)
    requires
        sound(p, a),
    ensures
        sound(after_item(p, role, item, a), a),
{
    let n = p.messages.len();
    match item {
        RequestContent::Text(t) => {
            lemma_part_sound(p, role, chat::PartView::Text(t@), a);
        },
        RequestContent::Image { url } => {
            if a.images {
                lemma_part_sound(p, role, image_part(url@), a);
            }
        },
        RequestContent::ToolUse { id, name, input } => {
            if let ToolUseInput::Json(v) = input {
                let q = after_item(p, role, item, a).messages;
                if n > 0 && p.messages.last() is Assistant {
                    assert(forall|i: int| 0 <= i < n - 1 ==> q[i] == p.messages[i]);
                    assert(!a.images ==> has_no_image(p.messages[n - 1]));
                    assert(!a.thinking ==> has_no_reasoning(p.messages[n - 1]));
                    assert(q[n - 1] is Assistant);
                } else {
                    assert(forall|i: int| 0 <= i < n ==> q[i] == p.messages[i]);
                    assert(q[n as int] is Assistant);
                }
            }
        },
        RequestContent::ToolResult { tool_use_id, content } => {
            let q = after_item(p, role, item, a).messages;
            assert(forall|i: int| 0 <= i < n ==> q[i] == p.messages[i]);
            if !a.images {
                lemma_result_imageless(content@);
            }
            assert(q[n as int] is Tool);
        },
        _ => {},
    }
}

proof fn lemma_items_sound(p: Progress, role: Role, items: Seq<RequestContent>, a: Abilities)
    requires
        sound(p, a),
    ensures
        sound(after_items(p, role, items, a), a),
    decreases items.len(),
{
    if items.len() > 0 {
        lemma_items_sound(p, role, items.drop_last(), a);
        lemma_item_sound(after_items(p, role, items.drop_last(), a), role, items.last(), a);
    }
}

proof fn lemma_chat_sound(messages: Seq<RequestMessage>, a: Abilities)
    ensures
        sound(Progress { messages: chat_of(messages, a), reasoning: None }, a),
    decreases messages.len(),
{
    if messages.len() > 0 {
        lemma_chat_sound(messages.drop_last(), a);
        let p = Progress { messages: chat_of(messages.drop_last(), a), reasoning: None };
        lemma_items_sound(p, messages.last().role, messages.last().content@, a);
    }
}

/// A model that takes no images is sent none, neither in messages nor in tool
/// results.
pub proof fn law_no_images_sent(messages: Seq<RequestMessage>, a: Abilities, i: int)
    requires
        !a.images,
        0 <= i < chat_of(messages, a).len(),
    ensures
        has_no_image(chat_of(messages, a)[i]),
{
    lemma_chat_sound(messages, a);
    let p = Progress { messages: chat_of(messages, a), reasoning: None };
    assert(has_no_image(p.messages[i]));
}

/// A model that does not think is sent no reasoning.
pub proof fn law_no_reasoning_sent(messages: Seq<RequestMessage>, a: Abilities, i: int)
    requires
        !a.thinking,
        0 <= i < chat_of(messages, a).len(),
    ensures
        has_no_reasoning(chat_of(messages, a)[i]),
{
    lemma_chat_sound(messages, a);
    let p = Progress { messages: chat_of(messages, a), reasoning: None };
    assert(has_no_reasoning(p.messages[i]));
}

/// What the user says, or the system, in a row is sent as one message.
pub proof fn law_messages_are_merged(messages: Seq<RequestMessage>, a: Abilities, i: int)
    requires
        0 <= i < chat_of(messages, a).len() - 1,
    ensures
        !mergeable(chat_of(messages, a)[i], chat_of(messages, a)[i + 1]),
{
    lemma_chat_sound(messages, a);
    let p = Progress { messages: chat_of(messages, a), reasoning: None };
    let j = i + 1;
    assert(!mergeable(p.messages[i], p.messages[j]));
}

/// A choice of tools is sent only along with tools, and tools only to a model
/// that takes them.
pub proof fn law_choice_needs_tools(
    model_name: Seq<char>,
    images: bool,
    capabilities: LiveCapabilities,
    config: Option<effort::EffortView>,
    r: LanguageModelRequest,
)
    ensures
        ({
            let s = sent_request(model_name, images, capabilities, config, r);
            &&& s.tool_choice is Some ==> s.tools.len() > 0
            &&& s.tools.len() > 0 ==> capabilities.supports_tools
        }),
{
}

// ---- what is sent is what was said ------------------------------------------------------

/// A part that is said, by whom, or the result of a tool.
pub enum Spoken {
    By { role: Role, part: chat::PartView },
    Result { id: Seq<char>, parts: Seq<chat::PartView> },
}

/// The parts of a content.
pub open spec fn parts_of(c: chat::ContentView) -> Seq<chat::PartView> {
    match c {
        chat::ContentView::Plain(t) => seq![chat::PartView::Text(t)],
        chat::ContentView::Multipart(parts) => parts,
    }
}

/// Parts that one says.
pub open spec fn all_by(role: Role, parts: Seq<chat::PartView>) -> Seq<Spoken> {
    Seq::new(parts.len(), |i: int| Spoken::By { role, part: parts[i] })
}

/// What a message that is sent says.
pub open spec fn spoken_in(m: chat::ChatView) -> Seq<Spoken> {
    match m {
        chat::ChatView::User(c) => all_by(Role::User, parts_of(c)),
        chat::ChatView::System(c) => all_by(Role::System, parts_of(c)),
        chat::ChatView::Assistant { content: Some(c), .. } => all_by(Role::Assistant, parts_of(c)),
        chat::ChatView::Assistant { content: None, .. } => Seq::empty(),
        chat::ChatView::Tool { content, id } => seq![
            Spoken::Result { id, parts: parts_of(content) },
        ],
    }
}

/// What the messages that are sent say, in order.
pub open spec fn spoken_all(messages: Seq<chat::ChatView>) -> Seq<Spoken>
    decreases messages.len(),
{
    if messages.len() == 0 {
        Seq::empty()
    } else {
        spoken_all(messages.drop_last()) + spoken_in(messages.last())
    }
}

/// The tool calls of a message that is sent.
pub open spec fn calls_in(m: chat::ChatView) -> Seq<chat::CallView> {
    match m {
        chat::ChatView::Assistant { calls, .. } => calls,
        _ => Seq::empty(),
    }
}

/// The reasoning of a message that is sent.
pub open spec fn reasoning_in(m: chat::ChatView) -> Seq<char> {
    match m {
        chat::ChatView::Assistant { reasoning: Some(r), .. } => r,
        _ => Seq::empty(),
    }
}

/// The tool calls of the messages that are sent, in order.
pub open spec fn calls_all(messages: Seq<chat::ChatView>) -> Seq<chat::CallView>
    decreases messages.len(),
{
    if messages.len() == 0 {
        Seq::empty()
    } else {
        calls_all(messages.drop_last()) + calls_in(messages.last())
    }
}

/// The reasoning of the messages that are sent, put together.
pub open spec fn reasoning_all(messages: Seq<chat::ChatView>) -> Seq<char>
    decreases messages.len(),
{
    if messages.len() == 0 {
        Seq::empty()
    } else {
        reasoning_all(messages.drop_last()) + reasoning_in(messages.last())
    }
}

/// Whose turn it is.
pub enum Turn {
    Speaks(Role),
    ToolAnswers,
}

/// The same turn so many times.
pub open spec fn turns(turn: Turn, n: nat) -> Seq<Turn> {
    Seq::new(n, |i: int| turn)
}

/// The turns of a message that is sent: one for each part, call and tool
/// result.
pub open spec fn turns_in(m: chat::ChatView) -> Seq<Turn> {
    match m {
        chat::ChatView::User(c) => turns(Turn::Speaks(Role::User), parts_of(c).len()),
        chat::ChatView::System(c) => turns(Turn::Speaks(Role::System), parts_of(c).len()),
        chat::ChatView::Assistant { content, calls, .. } => turns(
            Turn::Speaks(Role::Assistant),
            calls.len() + match content {
                Some(c) => parts_of(c).len(),
                None => 0,
            },
        ),
        chat::ChatView::Tool { .. } => turns(Turn::ToolAnswers, 1),
    }
}

/// The turns of the messages that are sent, in order.
pub open spec fn turns_all(messages: Seq<chat::ChatView>) -> Seq<Turn>
    decreases messages.len(),
{
    if messages.len() == 0 {
        Seq::empty()
    } else {
        turns_all(messages.drop_last()) + turns_in(messages.last())
    }
}

/// What the result of a tool says: all of its texts and, to a model that takes
/// them, all of its images, in order.
pub open spec fn result_said(content: Seq<ToolResultContent>, images: bool) -> Seq<chat::PartView>
    decreases content.len(),
{
    if content.len() == 0 {
        Seq::empty()
    } else {
        result_said(content.drop_last(), images) + match content.last() {
            ToolResultContent::Text(t) => seq![chat::PartView::Text(t@)],
            ToolResultContent::Image { url } => if images {
                seq![chat::PartView::Image { url: url@, detail: None }]
            } else {
                Seq::empty()
            },
        }
    }
}

/// What an item of the conversation says to a model.
pub open spec fn item_said(role: Role, item: RequestContent, images: bool) -> Seq<Spoken> {
    match item {
        RequestContent::Text(t) => seq![Spoken::By { role, part: chat::PartView::Text(t@) }],
        RequestContent::Image { url } if images => seq![
            Spoken::By { role, part: chat::PartView::Image { url: url@, detail: None } },
        ],
        RequestContent::ToolResult { tool_use_id, content } => seq![
            Spoken::Result { id: tool_use_id@, parts: result_said(content@, images) },
        ],
        _ => Seq::empty(),
    }
}

/// What items of one message say to a model, in order.
pub open spec fn items_said(role: Role, items: Seq<RequestContent>, images: bool) -> Seq<Spoken>
    decreases items.len(),
{
    if items.len() == 0 {
        Seq::empty()
    } else {
        items_said(role, items.drop_last(), images) + item_said(role, items.last(), images)
    }
}

/// What a conversation says to a model, in order.
pub open spec fn all_said(messages: Seq<RequestMessage>, images: bool) -> Seq<Spoken>
    decreases messages.len(),
{
    if messages.len() == 0 {
        Seq::empty()
    } else {
        all_said(messages.drop_last(), images) + items_said(
            messages.last().role,
            messages.last().content@,
            images,
        )
    }
}

/// The tool calls in items of one message, in order.
pub open spec fn items_called(items: Seq<RequestContent>) -> Seq<chat::CallView>
    decreases items.len(),
{
    if items.len() == 0 {
        Seq::empty()
    } else {
        items_called(items.drop_last()) + match items.last() {
            RequestContent::ToolUse { id, name, input: ToolUseInput::Json(v) } => seq![
                chat::CallView {
                    id: id@,
                    name: name@,
                    arguments: json::json_text(json::json_of(v)),
                },
            ],
            _ => Seq::empty(),
        }
    }
}

/// The tool calls in a conversation, in order.
pub open spec fn all_called(messages: Seq<RequestMessage>) -> Seq<chat::CallView>
    decreases messages.len(),
{
    if messages.len() == 0 {
        Seq::empty()
    } else {
        all_called(messages.drop_last()) + items_called(messages.last().content@)
    }
}

/// The turns in items of one message, in order.
pub open spec fn items_turns(role: Role, items: Seq<RequestContent>, images: bool) -> Seq<Turn>
    decreases items.len(),
{
    if items.len() == 0 {
        Seq::empty()
    } else {
        items_turns(role, items.drop_last(), images) + match items.last() {
            RequestContent::Text(_) => seq![Turn::Speaks(role)],
            RequestContent::Image { .. } if images => seq![Turn::Speaks(role)],
            RequestContent::ToolUse { input: ToolUseInput::Json(_), .. } => seq![
                Turn::Speaks(Role::Assistant),
            ],
            RequestContent::ToolResult { .. } => seq![Turn::ToolAnswers],
            _ => Seq::empty(),
        }
    }
}

/// The turns in a conversation, in order.
pub open spec fn all_turns(messages: Seq<RequestMessage>, images: bool) -> Seq<Turn>
    decreases messages.len(),
{
    if messages.len() == 0 {
        Seq::empty()
    } else {
        all_turns(messages.drop_last(), images) + items_turns(
            messages.last().role,
            messages.last().content@,
            images,
        )
    }
}

/// The reasoning in items, put together.
pub open spec fn items_thought(items: Seq<RequestContent>) -> Seq<char>
    decreases items.len(),
{
    if items.len() == 0 {
        Seq::empty()
    } else {
        items_thought(items.drop_last()) + match items.last() {
            RequestContent::Thinking { text } => text@,
            _ => Seq::empty(),
        }
    }
}

/// The reasoning of the assistant in a conversation, put together.
pub open spec fn all_thought(messages: Seq<RequestMessage>) -> Seq<char>
    decreases messages.len(),
{
    if messages.len() == 0 {
        Seq::empty()
    } else {
        all_thought(messages.drop_last()) + if messages.last().role == Role::Assistant {
            items_thought(messages.last().content@)
        } else {
            Seq::empty()
        }
    }
}

/// A message that ends with a text or a tool call.
pub open spec fn ends_spoken(m: RequestMessage) -> bool {
    m.content@.len() > 0 && match m.content@.last() {
        RequestContent::Text(_) => true,
        RequestContent::ToolUse { input: ToolUseInput::Json(_), .. } => true,
        _ => false,
    }
}

/// An optional text; an empty one where there is none.
pub open spec fn or_empty(t: Option<Seq<char>>) -> Seq<char> {
    match t {
        Some(t) => t,
        None => Seq::empty(),
    }
}

proof fn lemma_last(messages: Seq<chat::ChatView>, m: chat::ChatView)
    ensures
        spoken_all(messages.push(m)) == spoken_all(messages) + spoken_in(m),
        calls_all(messages.push(m)) == calls_all(messages) + calls_in(m),
        reasoning_all(messages.push(m)) == reasoning_all(messages) + reasoning_in(m),
        turns_all(messages.push(m)) == turns_all(messages) + turns_in(m),
{
    assert(messages.push(m).drop_last() =~= messages);
    assert(messages.push(m).last() == m);
}

proof fn lemma_part_is_added(c: chat::ContentView, part: chat::PartView)
    ensures
        parts_of(chat::with_part(c, part)) == parts_of(c).push(part),
{
    assert(parts_of(chat::with_part(c, part)) =~= parts_of(c).push(part));
}

proof fn lemma_parts_make_content(parts: Seq<chat::PartView>)
    ensures
        parts_of(chat::content_of(parts)) == parts,
{
    assert(parts_of(chat::content_of(parts)) =~= parts);
}

proof fn lemma_content_is_said(
    messages: Seq<chat::ChatView>,
    role: Role,
    part: chat::PartView,
    reasoning: Option<Seq<char>>,
)
    requires
        role != Role::Assistant ==> reasoning is None,
    ensures
        ({
            let now = with_content(messages, role, part, reasoning);
            &&& spoken_all(now) == spoken_all(messages).push(Spoken::By { role, part })
            &&& calls_all(now) == calls_all(messages)
            &&& reasoning_all(now) == reasoning_all(messages) + or_empty(reasoning)
            &&& turns_all(now) == turns_all(messages).push(Turn::Speaks(role))
        }),
{
    let now = with_content(messages, role, part, reasoning);
    if messages.len() > 0 && grown_message(messages.last(), role, part, reasoning) is Some {
        let last = messages.last();
        let rest = messages.drop_last();
        let grown = grown_message(last, role, part, reasoning)->0;
        assert(rest.push(last) =~= messages);
        lemma_last(rest, last);
        lemma_last(rest, grown);
        let c = match last {
            chat::ChatView::User(c) => c,
            chat::ChatView::System(c) => c,
            chat::ChatView::Assistant { content: Some(c), .. } => c,
            _ => arbitrary(),
        };
        lemma_part_is_added(c, part);
        assert(spoken_in(grown) =~= spoken_in(last).push(Spoken::By { role, part }));
        assert(spoken_all(now) =~= spoken_all(messages).push(Spoken::By { role, part }));
        assert(calls_in(grown) =~= calls_in(last));
        assert(turns_in(grown) =~= turns_in(last).push(Turn::Speaks(role)));
        assert(reasoning_in(grown) =~= reasoning_in(last) + or_empty(reasoning));
        assert(turns_all(now) =~= turns_all(messages).push(Turn::Speaks(role)));
        assert(reasoning_all(now) =~= reasoning_all(messages) + or_empty(reasoning));
    } else {
        let m = new_message(role, part, reasoning);
        lemma_last(messages, m);
        lemma_parts_make_content(seq![part]);
        assert(spoken_in(m) =~= seq![Spoken::By { role, part }]);
        assert(spoken_all(now) =~= spoken_all(messages).push(Spoken::By { role, part }));
        assert(calls_in(m) =~= Seq::empty());
        assert(calls_all(now) =~= calls_all(messages));
        assert(turns_in(m) =~= seq![Turn::Speaks(role)]);
        assert(turns_all(now) =~= turns_all(messages).push(Turn::Speaks(role)));
        assert(reasoning_in(m) =~= or_empty(reasoning));
        assert(reasoning_all(now) =~= reasoning_all(messages) + or_empty(reasoning));
    }
}

proof fn lemma_call_is_sent(
    messages: Seq<chat::ChatView>,
    call: chat::CallView,
    reasoning: Option<Seq<char>>,
)
    ensures
        ({
            let now = with_call(messages, call, reasoning);
            &&& spoken_all(now) == spoken_all(messages)
            &&& calls_all(now) == calls_all(messages).push(call)
            &&& reasoning_all(now) == reasoning_all(messages) + or_empty(reasoning)
            &&& turns_all(now) == turns_all(messages).push(Turn::Speaks(Role::Assistant))
        }),
{
    let now = with_call(messages, call, reasoning);
    let added = now.last();
    if messages.len() > 0 && messages.last() is Assistant {
        let last = messages.last();
        let rest = messages.drop_last();
        assert(rest.push(last) =~= messages);
        assert(now =~= rest.push(added));
        lemma_last(rest, last);
        lemma_last(rest, added);
        assert(spoken_in(added) =~= spoken_in(last));
        assert(calls_in(added) =~= calls_in(last).push(call));
        assert(turns_in(added) =~= turns_in(last).push(Turn::Speaks(Role::Assistant)));
        assert(reasoning_in(added) =~= reasoning_in(last) + or_empty(reasoning));
    } else {
        assert(now =~= messages.push(added));
        lemma_last(messages, added);
        assert(spoken_in(added) =~= Seq::empty());
        assert(calls_in(added) =~= seq![call]);
        assert(turns_in(added) =~= seq![Turn::Speaks(Role::Assistant)]);
        assert(reasoning_in(added) =~= or_empty(reasoning));
    }
    assert(spoken_all(now) =~= spoken_all(messages));
    assert(calls_all(now) =~= calls_all(messages).push(call));
    assert(turns_all(now) =~= turns_all(messages).push(Turn::Speaks(Role::Assistant)));
    assert(reasoning_all(now) =~= reasoning_all(messages) + or_empty(reasoning));
}

proof fn lemma_result_said(content: Seq<ToolResultContent>, images: bool)
    ensures
        result_parts(content, images) == result_said(content, images),
    decreases content.len(),
{
    if content.len() > 0 {
        lemma_result_said(content.drop_last(), images);
    }
    assert(result_parts(content, images) =~= result_said(content, images));
}

proof fn lemma_items_are_sent(p: Progress, role: Role, items: Seq<RequestContent>, a: Abilities)
    requires
        p.reasoning is None,
    ensures
        ({
            let q = after_items(p, role, items, a);
            &&& spoken_all(q.messages) == spoken_all(p.messages) + items_said(role, items, a.images)
            &&& calls_all(q.messages) == calls_all(p.messages) + items_called(items)
            &&& turns_all(q.messages) == turns_all(p.messages) + items_turns(role, items, a.images)
            &&& reasoning_all(q.messages) + or_empty(q.reasoning) == reasoning_all(p.messages)
                + if a.thinking && role == Role::Assistant {
                items_thought(items)
            } else {
                Seq::empty()
            }
            &&& !(a.thinking && role == Role::Assistant) ==> q.reasoning is None
        }),
    decreases items.len(),
{
    let q = after_items(p, role, items, a);
    if items.len() > 0 {
        let rest = items.drop_last();
        let item = items.last();
        let mid = after_items(p, role, rest, a);
        let taken = if a.thinking && role == Role::Assistant {
            mid.reasoning
        } else {
            None
        };
        lemma_items_are_sent(p, role, rest, a);
        let thinks = a.thinking && role == Role::Assistant;
        let held = reasoning_all(mid.messages) + or_empty(mid.reasoning);
        let more = match item {
            RequestContent::Thinking { text } if thinks => text@,
            _ => Seq::empty(),
        };
        assert(thinks ==> items_thought(items) =~= items_thought(rest) + more);
        match item {
            RequestContent::Text(t) => {
                lemma_content_is_said(mid.messages, role, chat::PartView::Text(t@), taken);
            },
            RequestContent::Image { url } => {
                if a.images {
                    lemma_content_is_said(mid.messages, role, image_part(url@), taken);
                }
            },
            RequestContent::ToolUse { id, name, input } => {
                if let ToolUseInput::Json(v) = input {
                    let call = chat::CallView {
                        id: id@,
                        name: name@,
                        arguments: json::json_text(json::json_of(v)),
                    };
                    lemma_call_is_sent(mid.messages, call, mid.reasoning);
                }
            },
            RequestContent::ToolResult { tool_use_id, content } => {
                let m = q.messages.last();
                lemma_result_said(content@, a.images);
                lemma_parts_make_content(result_parts(content@, a.images));
                lemma_last(mid.messages, m);
                assert(calls_in(m) =~= Seq::empty());
                assert(reasoning_in(m) =~= Seq::empty());
                assert(turns_in(m) =~= seq![Turn::ToolAnswers]);
            },
            _ => {},
        }
        assert(reasoning_all(q.messages) + or_empty(q.reasoning) =~= held + more);
    }
    assert(spoken_all(q.messages) =~= spoken_all(p.messages) + items_said(role, items, a.images));
    assert(calls_all(q.messages) =~= calls_all(p.messages) + items_called(items));
    assert(turns_all(q.messages) =~= turns_all(p.messages) + items_turns(role, items, a.images));
    assert(reasoning_all(q.messages) + or_empty(q.reasoning) =~= reasoning_all(p.messages)
        + if a.thinking && role == Role::Assistant {
        items_thought(items)
    } else {
        Seq::empty()
    });
}

/// Everything that the conversation says is sent, in order and by the one who
/// says it: every text whole, every image where the model takes images, every
/// result of a tool with its id and its parts. So is every tool call, with its
/// id, its name and its arguments, and the turns alternate as they did.
pub proof fn law_conversation_is_sent_whole(messages: Seq<RequestMessage>, a: Abilities)
    ensures
        spoken_all(chat_of(messages, a)) == all_said(messages, a.images),
        calls_all(chat_of(messages, a)) == all_called(messages),
        turns_all(chat_of(messages, a)) == all_turns(messages, a.images),
    decreases messages.len(),
{
    if messages.len() > 0 {
        let rest = messages.drop_last();
        law_conversation_is_sent_whole(rest, a);
        let p = Progress { messages: chat_of(rest, a), reasoning: None };
        lemma_items_are_sent(p, messages.last().role, messages.last().content@, a);
    }
    assert(spoken_all(chat_of(messages, a)) =~= all_said(messages, a.images));
    assert(calls_all(chat_of(messages, a)) =~= all_called(messages));
    assert(turns_all(chat_of(messages, a)) =~= all_turns(messages, a.images));
}

/// To a model that thinks, all of the assistant's reasoning is sent, in order
/// and whole, where every message of the assistant ends with a text or a call.
pub proof fn law_reasoning_is_sent_whole(messages: Seq<RequestMessage>, a: Abilities)
    requires
        a.thinking,
        forall|i: int|
            0 <= i < messages.len() && (#[trigger] messages[i]).role == Role::Assistant
                ==> ends_spoken(messages[i]),
    ensures
        reasoning_all(chat_of(messages, a)) == all_thought(messages),
    decreases messages.len(),
{
    if messages.len() > 0 {
        let rest = messages.drop_last();
        let last = messages[messages.len() - 1];
        assert forall|i: int|
            0 <= i < rest.len() && (#[trigger] rest[i]).role == Role::Assistant implies ends_spoken(
            rest[i],
        ) by {
            assert(rest[i] == messages[i]);
        }
        law_reasoning_is_sent_whole(rest, a);
        let p = Progress { messages: chat_of(rest, a), reasoning: None };
        let q = after_items(p, last.role, last.content@, a);
        lemma_items_are_sent(p, last.role, last.content@, a);
        if last.role == Role::Assistant {
            assert(ends_spoken(last));
            assert(q.reasoning is None);
        }
        assert(reasoning_all(q.messages) + or_empty(q.reasoning) =~= reasoning_all(q.messages));
    }
    assert(reasoning_all(chat_of(messages, a)) =~= all_thought(messages));
}

/// What a request that is sent says of the conversation that was asked for.
pub open spec fn conveys(
    q: chat::RequestView,
    model_name: Seq<char>,
    images: bool,
    capabilities: LiveCapabilities,
    r: LanguageModelRequest,
) -> bool {
    &&& q.model == model_name
    &&& q.stream
    &&& q.include_usage == Some(true)
    &&& q.max_tokens is None
    &&& q.temperature == r.temperature
    &&& spoken_all(q.messages) == all_said(r.messages@, images)
    &&& calls_all(q.messages) == all_called(r.messages@)
    &&& turns_all(q.messages) == all_turns(r.messages@, images)
    &&& q.stop is None <==> r.stop@.len() == 0
    &&& q.stop matches Some(stop) ==> stop.len() == r.stop@.len() && forall|i: int|
        0 <= i < stop.len() ==> #[trigger] stop[i] == r.stop@[i]@
    &&& q.tools.len() == if capabilities.supports_tools {
        r.tools@.len()
    } else {
        0
    }
    &&& forall|i: int|
        0 <= i < q.tools.len() ==> {
            &&& (#[trigger] q.tools[i]).name == r.tools@[i].name@
            &&& q.tools[i].description == Some(r.tools@[i].description@)
            &&& r.tools@[i].input matches RequestToolInput::Function { input_schema }
                ==> q.tools[i].parameters == Some(json::json_of(input_schema))
        }
    &&& q.tools.len() == 0 ==> q.tool_choice is None
    &&& q.tools.len() > 0 ==> {
        &&& q.tool_choice == Some(ToolChoice::Auto) <==> r.tool_choice == Some(
            LanguageModelToolChoice::Auto,
        )
        &&& q.tool_choice == Some(ToolChoice::Required) <==> r.tool_choice == Some(
            LanguageModelToolChoice::Any,
        )
        &&& q.tool_choice == Some(ToolChoice::Never) <==> r.tool_choice == Some(
            LanguageModelToolChoice::Never,
        )
    }
}

/// A request that is sent says what was asked for: to the model, the whole
/// conversation, with the tools and the choice of tools, the stops and the
/// temperature as they were given.
pub proof fn law_request_conveys_what_was_asked(
    model_name: Seq<char>,
    images: bool,
    capabilities: LiveCapabilities,
    config: Option<effort::EffortView>,
    r: LanguageModelRequest,
)
    ensures
        built(model_name, images, capabilities, config, r) matches Ok(q) ==> conveys(
            q,
            model_name,
            images,
            capabilities,
            r,
        ),
{
    let a = Abilities { images, thinking: capabilities.supports_thinking || config is Some };
    law_conversation_is_sent_whole(r.messages@, a);
}

/// The level of reasoning effort that is sent: none to a model without levels
/// or where thinking is not allowed; else the one that was asked for, where the
/// model offers it, and the model's own where it does not or none was asked
/// for.
pub proof fn law_effort_is_sent_as_asked(
    model_name: Seq<char>,
    images: bool,
    capabilities: LiveCapabilities,
    config: Option<effort::EffortView>,
    r: LanguageModelRequest,
)
    ensures
        built(model_name, images, capabilities, config, r) matches Ok(q) ==> {
            &&& q.reasoning_effort is Some <==> config is Some && r.thinking_allowed
            &&& q.reasoning_effort matches Some(e) ==> {
                let c = config->0;
                let asked = r.thinking_effort;
                &&& asked is Some && (exists|i: int|
                    0 <= i < c.levels.len() && (#[trigger] c.levels[i]).0 == asked->0@) ==> e
                    == asked->0@
                &&& asked is None || (forall|i: int|
                    0 <= i < c.levels.len() ==> (#[trigger] c.levels[i]).0 != asked->0@) ==> e
                    == c.default
            }
        },
{
}

/// A conversation is refused exactly where it holds an input that is not JSON:
/// it says so itself, it calls a tool with one, or it has a tool that takes one
/// and that would be sent.
pub proof fn law_custom_inputs_are_refused(
    model_name: Seq<char>,
    images: bool,
    capabilities: LiveCapabilities,
    config: Option<effort::EffortView>,
    r: LanguageModelRequest,
)
    ensures
        built(model_name, images, capabilities, config, r) is Err <==> {
            ||| r.contains_custom_tool_input
            ||| exists|i: int, j: int|
                0 <= i < r.messages@.len() && 0 <= j < r.messages@[i].content@.len() && (#[trigger] r.messages@[i].content@[j]) is ToolUse
                && r.messages@[i].content@[j]->input is Custom
            ||| capabilities.supports_tools && exists|i: int|
                0 <= i < r.tools@.len() && (#[trigger] r.tools@[i]).input is Custom
        },
        built(model_name, images, capabilities, config, r) matches Err(e) ==> (e
            == RequestError::CustomToolCalls <==> !r.contains_custom_tool_input && any_custom_call(
            r.messages@,
        )),
{
    if any_custom_call(r.messages@) {
        let i = choose|i: int|
            0 <= i < r.messages@.len() && has_custom_call(#[trigger] r.messages@[i]);
        let m = r.messages@[i];
        let j = choose|j: int| 0 <= j < m.content@.len() && is_custom_call(#[trigger] m.content@[j]);
        assert(r.messages@[i].content@[j] is ToolUse
            && r.messages@[i].content@[j]->input is Custom);
    }
    if exists|i: int, j: int|
        0 <= i < r.messages@.len() && 0 <= j < r.messages@[i].content@.len() && (#[trigger] r.messages@[i].content@[j]) is ToolUse
                && r.messages@[i].content@[j]->input is Custom {
        let (i, j) = choose|i: int, j: int|
            0 <= i < r.messages@.len() && 0 <= j < r.messages@[i].content@.len() && (#[trigger] r.messages@[i].content@[j]) is ToolUse
                && r.messages@[i].content@[j]->input is Custom;
        assert(is_custom_call(r.messages@[i].content@[j]));
        assert(has_custom_call(r.messages@[i]));
    }
    if capabilities.supports_tools && exists|i: int|
        0 <= i < r.tools@.len() && (#[trigger] r.tools@[i]).input is Custom {
        let i = choose|i: int| 0 <= i < r.tools@.len() && (#[trigger] r.tools@[i]).input is Custom;
        assert(is_custom_tool(r.tools@[i]));
    }
}

/// Reasoning is sent to a model that thinks or that takes a level of effort,
/// all of it and in order, where every message of the assistant ends with a
/// text or a call. To any other model none is sent.
pub proof fn law_reasoning_goes_to_models_that_think(
    model_name: Seq<char>,
    images: bool,
    capabilities: LiveCapabilities,
    config: Option<effort::EffortView>,
    r: LanguageModelRequest,
    i: int,
)
    requires
        forall|k: int|
            0 <= k < r.messages@.len() && (#[trigger] r.messages@[k]).role == Role::Assistant
                ==> ends_spoken(r.messages@[k]),
    ensures
        built(model_name, images, capabilities, config, r) matches Ok(q) ==> {
            &&& capabilities.supports_thinking || config is Some ==> reasoning_all(q.messages)
                == all_thought(r.messages@)
            &&& !capabilities.supports_thinking && config is None && 0 <= i < q.messages.len() ==> (
            q.messages[i] matches chat::ChatView::Assistant { reasoning, .. } ==> reasoning is None)
        },
{
    let a = Abilities { images, thinking: capabilities.supports_thinking || config is Some };
    if a.thinking {
        law_reasoning_is_sent_whole(r.messages@, a);
    } else if 0 <= i < chat_of(r.messages@, a).len() {
        law_no_reasoning_sent(r.messages@, a, i);
    }
}

/// What the assistant says in a message that is sent.
pub open spec fn assistant_content(m: chat::ChatView) -> Option<chat::ContentView> {
    match m {
        chat::ChatView::Assistant { content, .. } => content,
        _ => None,
    }
}

/// Of two messages of the assistant in a row the first says nothing, and the
/// second does.
spec fn turns_apart(messages: Seq<chat::ChatView>) -> bool {
    forall|i: int, j: int|
        0 <= i && j == i + 1 && j < messages.len() && (#[trigger] messages[i]) is Assistant && (
        #[trigger] messages[j]) is Assistant ==> assistant_content(messages[i]) is None
            && assistant_content(messages[j]) is Some
}

proof fn lemma_grown_apart(messages: Seq<chat::ChatView>, m: chat::ChatView)
    requires
        messages.len() > 0,
        turns_apart(messages),
        m is Assistant <==> messages.last() is Assistant,
        assistant_content(m) is Some <==> assistant_content(messages.last()) is Some,
    ensures
        turns_apart(messages.drop_last().push(m)),
{
    let q = messages.drop_last().push(m);
    let n = messages.len() - 1;
    assert forall|i: int, j: int|
        0 <= i && j == i + 1 && j < q.len() && (#[trigger] q[i]) is Assistant && (#[trigger] q[j])
            is Assistant implies assistant_content(q[i]) is None && assistant_content(q[j])
        is Some by {
        assert(q[i] == messages[i]);
        assert(messages[n] == messages.last());
        assert(messages[i] is Assistant && messages[j] is Assistant);
    }
}

proof fn lemma_added_apart(messages: Seq<chat::ChatView>, m: chat::ChatView)
    requires
        turns_apart(messages),
        messages.len() > 0 && messages.last() is Assistant && m is Assistant ==> assistant_content(
            messages.last(),
        ) is None && assistant_content(m) is Some,
    ensures
        turns_apart(messages.push(m)),
{
    let q = messages.push(m);
    assert forall|i: int, j: int|
        0 <= i && j == i + 1 && j < q.len() && (#[trigger] q[i]) is Assistant && (#[trigger] q[j])
            is Assistant implies assistant_content(q[i]) is None && assistant_content(q[j])
        is Some by {
        assert(q[i] == messages[i]);
        if j < messages.len() {
            assert(q[j] == messages[j]);
        }
    }
}

proof fn lemma_part_apart(
    messages: Seq<chat::ChatView>,
    role: Role,
    part: chat::PartView,
    reasoning: Option<Seq<char>>,
)
    requires
        turns_apart(messages),
    ensures
        turns_apart(with_content(messages, role, part, reasoning)),
{
    if messages.len() > 0 && grown_message(messages.last(), role, part, reasoning) is Some {
        lemma_grown_apart(messages, grown_message(messages.last(), role, part, reasoning)->0);
    } else {
        lemma_added_apart(messages, new_message(role, part, reasoning));
    }
}

proof fn lemma_items_apart(p: Progress, role: Role, items: Seq<RequestContent>, a: Abilities)
    requires
        turns_apart(p.messages),
    ensures
        turns_apart(after_items(p, role, items, a).messages),
    decreases items.len(),
{
    if items.len() > 0 {
        let mid = after_items(p, role, items.drop_last(), a);
        lemma_items_apart(p, role, items.drop_last(), a);
        let taken = if a.thinking && role == Role::Assistant {
            mid.reasoning
        } else {
            None
        };
        match items.last() {
            RequestContent::Text(t) => {
                lemma_part_apart(mid.messages, role, chat::PartView::Text(t@), taken);
            },
            RequestContent::Image { url } => {
                lemma_part_apart(mid.messages, role, image_part(url@), taken);
            },
            RequestContent::ToolUse { id, name, input } => {
                if let ToolUseInput::Json(v) = input {
                    let now = after_item(mid, role, items.last(), a).messages;
                    if mid.messages.len() > 0 && mid.messages.last() is Assistant {
                        lemma_grown_apart(mid.messages, now.last());
                        assert(now =~= mid.messages.drop_last().push(now.last()));
                    } else {
                        lemma_added_apart(mid.messages, now.last());
                        assert(now =~= mid.messages.push(now.last()));
                    }
                }
            },
            RequestContent::ToolResult { tool_use_id, content } => {
                let now = after_item(mid, role, items.last(), a).messages;
                lemma_added_apart(mid.messages, now.last());
                assert(now =~= mid.messages.push(now.last()));
            },
            _ => {},
        }
    }
}

proof fn lemma_chat_apart(messages: Seq<RequestMessage>, a: Abilities)
    ensures
        turns_apart(chat_of(messages, a)),
    decreases messages.len(),
{
    if messages.len() > 0 {
        lemma_chat_apart(messages.drop_last(), a);
        let p = Progress { messages: chat_of(messages.drop_last(), a), reasoning: None };
        lemma_items_apart(p, messages.last().role, messages.last().content@, a);
    }
}

/// What the assistant says and the tools that it calls in a row are sent as one
/// message, but for a text behind calls before which nothing was said: that
/// begins a message.
pub proof fn law_assistant_messages_are_merged(
    messages: Seq<RequestMessage>,
    a: Abilities,
    i: int,
)
    requires
        0 <= i < chat_of(messages, a).len() - 1,
        chat_of(messages, a)[i] is Assistant,
        chat_of(messages, a)[i + 1] is Assistant,
    ensures
        assistant_content(chat_of(messages, a)[i]) is None,
        assistant_content(chat_of(messages, a)[i + 1]) is Some,
{
    lemma_chat_apart(messages, a);
    let m = chat_of(messages, a);
    let j = i + 1;
    assert(m[i] is Assistant && m[j] is Assistant);
}

// ---- what callers see -----------------------------------------------------------------

/// A request that is built says what was asked for, with the level of effort
/// that the family of the model offers; it is refused exactly where the
/// conversation holds an input that is not JSON.
pub proof fn law_built_request_conveys(
    model_name: &str,
    images: bool,
    capabilities: LiveCapabilities,
    conversation: LanguageModelRequest,
    r: Result<ChatCompletionRequest, RequestError>,
)
    requires
        call_ensures(build_glm_request, (model_name, images, capabilities, conversation), r),
    ensures
        r matches Ok(q) ==> conveys(q@, model_name@, images, capabilities, conversation),
        r is Err <==> refusal(conversation, capabilities.supports_tools) is Some,
        built_view(r) == built(
            model_name@,
            images,
            capabilities,
            effort::effort_of(text::lowercase(model_name@)),
            conversation,
        ),
{
}

/// A part that is added to the messages is said last, and by its role; what was
/// said before stays. Reasoning that is added comes behind what there was.
pub proof fn law_added_part_is_said_last(
    part: MessagePart,
    role: Role,
    messages: &mut Vec<ChatMessage>,
    reasoning: Option<String>,
    target: &mut Option<String>,
    more: String,
)
    requires
        call_ensures(add_message_content_part, (part, role, messages, reasoning), ()),
        call_ensures(append_reasoning_content, (target, Some(more)), ()),
    ensures
        chat::chat_views(final(messages)@) == with_content(
            chat::chat_views(old(messages)@),
            role,
            part@,
            text::opt_view(reasoning),
        ),
        or_empty(text::opt_view(*final(target))) == or_empty(text::opt_view(*old(target))) + more@,
        more@.len() == 0 ==> text::opt_view(*final(target)) == text::opt_view(*old(target)),
{
    assert(or_empty(text::opt_view(*final(target))) =~= or_empty(text::opt_view(*old(target)))
        + more@);
}

/// Each refusal is told in its own words.
pub proof fn law_refusals_are_told(e: RequestError, message: &'static str)
    requires
        call_ensures(RequestError::message, (&e,), message),
    ensures
        e == RequestError::CustomTools ==> message@ == "GLM does not support custom tools"@,
        e == RequestError::CustomToolCalls ==> message@ == "GLM does not support custom tool calls"@,
{
}

} // verus!
