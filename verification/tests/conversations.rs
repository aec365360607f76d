use zagent::chat::{
    ChatMessage, ChoiceDelta, FunctionChunk, MessageContent, MessagePart, ResponseMessageDelta,
    ResponseStreamEvent, ToolCall, ToolCallChunk, ToolCallContent, ToolChoice, ToolDefinition,
    Usage,
};
use zagent::effort::{
    effort_config_for, effort_levels, model_supports_reasoning_effort, reasoning_effort_config,
    resolve_effort, supported_effort_levels_for,
};
use zagent::events::{
    resolve_tool_call, CompletionEvent, GLMEventMapper, RawToolCall, StopReason, ToolUseEvent,
};
use zagent::request::{
    add_message_content_part, append_reasoning_content, build_glm_request,
    build_glm_request_given, LanguageModelRequest, LanguageModelToolChoice, LiveCapabilities,
    RequestContent, RequestError, RequestMessage, RequestTool, RequestToolInput, Role,
    ToolResultContent, ToolUseInput,
};

fn json(s: &str) -> serde_json::Value {
    serde_json::from_str(s).unwrap()
}

fn message(role: Role, content: Vec<RequestContent>) -> RequestMessage {
    RequestMessage { role, content }
}

fn said(s: &str) -> RequestContent {
    RequestContent::Text(s.to_string())
}

fn thought(s: &str) -> RequestContent {
    RequestContent::Thinking { text: s.to_string() }
}

fn image(s: &str) -> RequestContent {
    RequestContent::Image { url: s.to_string() }
}

fn call(id: &str, arguments: &str) -> RequestContent {
    RequestContent::ToolUse {
        id: id.to_string(),
        name: "tool".to_string(),
        input: ToolUseInput::Json(json(arguments)),
    }
}

fn conversation(messages: Vec<RequestMessage>) -> LanguageModelRequest {
    LanguageModelRequest {
        messages,
        tools: vec![],
        tool_choice: None,
        stop: vec![],
        temperature: None,
        thinking_allowed: true,
        thinking_effort: None,
        contains_custom_tool_input: false,
    }
}

fn capable(tools: bool, thinking: bool) -> LiveCapabilities {
    LiveCapabilities { max_tokens: 1000, supports_tools: tools, supports_thinking: thinking }
}

fn plain(content: &MessageContent) -> &str {
    match content {
        MessageContent::Plain(t) => t,
        MessageContent::Multipart(_) => panic!("several parts"),
    }
}

fn arguments(c: &ToolCall) -> &str {
    match &c.content {
        ToolCallContent::Function { function } => &function.arguments,
    }
}

fn tool(name: &str, custom: bool) -> RequestTool {
    RequestTool {
        name: name.to_string(),
        description: "does".to_string(),
        input: if custom {
            RequestToolInput::Custom
        } else {
            RequestToolInput::Function { input_schema: json("{\"type\":\"object\"}") }
        },
    }
}

#[test]
fn effort_by_family() {
    let levels = |name: &str| -> Vec<(String, String, bool)> {
        supported_effort_levels_for(name)
            .into_iter()
            .map(|l| (l.name, l.value, l.is_default))
            .collect()
    };
    let level = |n: &str, v: &str, d: bool| (n.to_string(), v.to_string(), d);
    assert_eq!(
        levels("GLM-5.3-Flash"),
        vec![level("Low", "low", false), level("High", "high", true)]
    );
    assert_eq!(
        levels("my/glm-5.3-big"),
        vec![
            level("Low", "low", false),
            level("High", "high", true),
            level("Max", "max", false)
        ]
    );
    assert_eq!(
        levels("glm-5.2"),
        vec![level("High", "high", true), level("Max", "max", false)]
    );
    assert_eq!(levels("glm-4"), vec![]);
    assert!(model_supports_reasoning_effort("GLM-5.2"));
    assert!(!model_supports_reasoning_effort("other"));
    assert_eq!(reasoning_effort_config("GLM-5.2").unwrap().default, "high");
    assert!(effort_config_for("GLM-5.2").is_none());
    assert_eq!(effort_levels(effort_config_for("glm-5.2")).len(), 2);
}

#[test]
fn effort_to_send() {
    let config = effort_config_for("glm-5.2");
    let asked = |s: &str| Some(s.to_string());
    assert_eq!(resolve_effort(&config, true, &asked("max")), asked("max"));
    assert_eq!(resolve_effort(&config, true, &asked("low")), asked("high"));
    assert_eq!(resolve_effort(&config, true, &None), asked("high"));
    assert_eq!(resolve_effort(&config, false, &asked("max")), None);
    assert_eq!(resolve_effort(&None, true, &asked("max")), None);
}

#[test]
fn reasoning_is_appended() {
    let mut target = None;
    append_reasoning_content(&mut target, None);
    append_reasoning_content(&mut target, Some(String::new()));
    assert_eq!(target, None);
    append_reasoning_content(&mut target, Some("a".to_string()));
    append_reasoning_content(&mut target, Some("b".to_string()));
    assert_eq!(target, Some("ab".to_string()));
}

#[test]
fn parts_go_to_the_last_message_of_the_role() {
    let part = |s: &str| MessagePart::Text { text: s.to_string() };
    let mut messages = Vec::new();
    add_message_content_part(part("a"), Role::User, &mut messages, None);
    add_message_content_part(part("b"), Role::User, &mut messages, None);
    assert_eq!(messages.len(), 1);
    add_message_content_part(part("c"), Role::Assistant, &mut messages, Some("r".to_string()));
    add_message_content_part(part("d"), Role::Assistant, &mut messages, Some("s".to_string()));
    assert_eq!(messages.len(), 2);
    match &messages[1] {
        ChatMessage::Assistant { content, reasoning_content, tool_calls } => {
            assert!(matches!(content, Some(MessageContent::Multipart(p)) if p.len() == 2));
            assert_eq!(reasoning_content.as_deref(), Some("rs"));
            assert!(tool_calls.is_empty());
        }
        _ => panic!("not the assistant"),
    }
    add_message_content_part(part("e"), Role::System, &mut messages, None);
    add_message_content_part(part("f"), Role::User, &mut messages, None);
    assert_eq!(messages.len(), 4);
}

#[test]
fn plain_conversation() {
    let r = build_glm_request(
        "glm-4",
        false,
        capable(false, false),
        conversation(vec![
            message(Role::System, vec![said("be brief")]),
            message(Role::User, vec![said("hi"), image("data:x")]),
            message(Role::User, vec![said("there")]),
        ]),
    )
    .unwrap();
    assert_eq!(r.model, "glm-4");
    assert!(r.stream);
    assert_eq!(r.max_tokens, None);
    assert_eq!(r.stop, None);
    assert_eq!(r.reasoning_effort, None);
    assert!(r.tool_choice.is_none());
    assert!(r.stream_options.unwrap().include_usage);
    assert_eq!(r.messages.len(), 2);
    match &r.messages[1] {
        ChatMessage::User { content: MessageContent::Multipart(parts) } => {
            assert_eq!(parts.len(), 2);
            assert!(matches!(&parts[1], MessagePart::Text { text } if text == "there"));
        }
        _ => panic!("no merged message"),
    }
}

#[test]
fn images_are_sent_where_supported() {
    let r = build_glm_request(
        "glm-4",
        true,
        capable(false, false),
        conversation(vec![
            message(Role::User, vec![image("data:x")]),
            message(
                Role::User,
                vec![RequestContent::ToolResult {
                    tool_use_id: "t".to_string(),
                    content: vec![
                        ToolResultContent::Text("ok".to_string()),
                        ToolResultContent::Image { url: "data:y".to_string() },
                    ],
                }],
            ),
        ]),
    )
    .unwrap();
    match &r.messages[0] {
        ChatMessage::User { content: MessageContent::Multipart(parts) } => {
            assert!(
                matches!(&parts[0], MessagePart::Image { image_url } if image_url.url == "data:x" && image_url.detail.is_none())
            );
        }
        _ => panic!("no image"),
    }
    match &r.messages[1] {
        ChatMessage::Tool { content: MessageContent::Multipart(parts), tool_call_id } => {
            assert_eq!(parts.len(), 2);
            assert_eq!(tool_call_id, "t");
        }
        _ => panic!("no tool result"),
    }
    let r = build_glm_request(
        "glm-4",
        false,
        capable(false, false),
        conversation(vec![message(
            Role::User,
            vec![RequestContent::ToolResult {
                tool_use_id: "t".to_string(),
                content: vec![
                    ToolResultContent::Text("ok".to_string()),
                    ToolResultContent::Image { url: "data:y".to_string() },
                ],
            }],
        )]),
    )
    .unwrap();
    assert!(
        matches!(&r.messages[0], ChatMessage::Tool { content, .. } if plain(content) == "ok")
    );
}

#[test]
fn reasoning_goes_with_the_next_part() {
    let r = build_glm_request(
        "glm-5.2",
        false,
        capable(false, false),
        conversation(vec![
            message(
                Role::Assistant,
                vec![
                    thought("a"),
                    RequestContent::RedactedThinking,
                    thought("b"),
                    RequestContent::Compaction,
                    said("x"),
                    thought("c"),
                    call("1", "{\"k\": [1, 2]}"),
                    call("2", "{}"),
                    thought("lost"),
                ],
            ),
            message(Role::User, vec![thought("ignored"), said("y")]),
            message(Role::Assistant, vec![thought("z"), call("3", "null")]),
        ]),
    )
    .unwrap();
    assert_eq!(r.reasoning_effort.as_deref(), Some("high"));
    assert_eq!(r.messages.len(), 3);
    match &r.messages[0] {
        ChatMessage::Assistant { content, reasoning_content, tool_calls } => {
            assert_eq!(plain(content.as_ref().unwrap()), "x");
            assert_eq!(reasoning_content.as_deref(), Some("abc"));
            assert_eq!(tool_calls.len(), 2);
            assert_eq!(tool_calls[0].id, "1");
            assert_eq!(arguments(&tool_calls[0]), "{\"k\":[1,2]}");
            assert_eq!(arguments(&tool_calls[1]), "{}");
        }
        _ => panic!("not the assistant"),
    }
    match &r.messages[2] {
        ChatMessage::Assistant { content, reasoning_content, tool_calls } => {
            assert!(content.is_none());
            assert_eq!(reasoning_content.as_deref(), Some("z"));
            assert_eq!(arguments(&tool_calls[0]), "null");
        }
        _ => panic!("not the assistant"),
    }
}

#[test]
fn no_reasoning_for_a_model_that_does_not_think() {
    let r = build_glm_request_given(
        "GLM-5.2",
        "other",
        false,
        capable(false, false),
        conversation(vec![message(Role::Assistant, vec![thought("a"), said("x")])]),
    )
    .unwrap();
    assert_eq!(r.model, "GLM-5.2");
    assert_eq!(r.reasoning_effort, None);
    assert!(
        matches!(&r.messages[0], ChatMessage::Assistant { reasoning_content: None, .. })
    );
}

#[test]
fn tools_and_choice() {
    let with_tools = |supports: bool, tools: Vec<RequestTool>| {
        let mut c = conversation(vec![]);
        c.tools = tools;
        c.tool_choice = Some(LanguageModelToolChoice::Any);
        c.stop = vec!["END".to_string()];
        c.temperature = Some(0.5f32.to_bits());
        build_glm_request("glm-4", false, capable(supports, false), c)
    };
    let r = with_tools(true, vec![tool("f", false)]).unwrap();
    assert_eq!(r.tool_choice, Some(ToolChoice::Required));
    assert_eq!(r.stop, Some(vec!["END".to_string()]));
    assert_eq!(r.temperature.map(f32::from_bits), Some(0.5));
    match &r.tools[0] {
        ToolDefinition::Function { function } => {
            assert_eq!(function.name, "f");
            assert_eq!(function.description.as_deref(), Some("does"));
            assert_eq!(function.parameters, Some(json("{\"type\":\"object\"}")));
        }
    }
    let r = with_tools(false, vec![tool("f", true)]).unwrap();
    assert!(r.tools.is_empty() && r.tool_choice.is_none());
    let r = with_tools(true, vec![]).unwrap();
    assert!(r.tool_choice.is_none());
    assert_eq!(
        with_tools(true, vec![tool("f", false), tool("g", true)]).err(),
        Some(RequestError::CustomTools)
    );
}

#[test]
fn refusals() {
    let mut c = conversation(vec![]);
    c.contains_custom_tool_input = true;
    assert_eq!(
        build_glm_request("m", false, capable(true, true), c).err(),
        Some(RequestError::CustomTools)
    );
    let custom = RequestContent::ToolUse {
        id: "i".to_string(),
        name: "n".to_string(),
        input: ToolUseInput::Custom,
    };
    let c = conversation(vec![message(Role::Assistant, vec![said("a"), custom])]);
    let e = build_glm_request("m", false, capable(true, true), c).err().unwrap();
    assert_eq!(e, RequestError::CustomToolCalls);
    assert_eq!(e.message(), "GLM does not support custom tool calls");
    assert_eq!(RequestError::CustomTools.message(), "GLM does not support custom tools");
}

fn chunk(index: usize, id: Option<&str>, name: Option<&str>, args: Option<&str>) -> ToolCallChunk {
    ToolCallChunk {
        index,
        id: id.map(|s| s.to_string()),
        function: Some(FunctionChunk {
            name: name.map(|s| s.to_string()),
            arguments: args.map(|s| s.to_string()),
        }),
    }
}

fn piece(
    content: Option<&str>,
    reasoning: Option<&str>,
    chunks: Option<Vec<ToolCallChunk>>,
    finish: Option<&str>,
) -> ResponseStreamEvent {
    ResponseStreamEvent {
        model: "m".to_string(),
        object: "o".to_string(),
        choices: vec![ChoiceDelta {
            index: 0,
            delta: ResponseMessageDelta {
                content: content.map(|s| s.to_string()),
                reasoning_content: reasoning.map(|s| s.to_string()),
                tool_calls: chunks,
            },
            finish_reason: finish.map(|s| s.to_string()),
        }],
        usage: None,
    }
}

#[test]
fn pieces_become_events() {
    let mut mapper = GLMEventMapper::new();
    let events = mapper.map_event(piece(Some("hi"), Some("hm"), None, None));
    assert_eq!(events.len(), 2);
    assert!(matches!(&events[0], CompletionEvent::Thinking { text } if text == "hm"));
    assert!(matches!(&events[1], CompletionEvent::Text(t) if t == "hi"));
    let events = mapper.map_event(piece(Some(""), Some(""), None, Some("stop")));
    assert_eq!(events.len(), 2);
    assert!(matches!(&events[0], CompletionEvent::Thinking { text } if text.is_empty()));
    assert!(matches!(&events[1], CompletionEvent::Stop(StopReason::EndTurn)));
    let events = mapper.map_event(piece(None, None, None, Some("length")));
    assert!(matches!(&events[0], CompletionEvent::Stop(StopReason::MaxTokens)));
    let events = mapper.map_event(piece(None, None, None, Some("odd")));
    assert!(matches!(&events[0], CompletionEvent::Stop(StopReason::EndTurn)));
}

#[test]
fn usage_is_reported() {
    let mut event = piece(None, None, None, None);
    event.choices.clear();
    event.usage = Some(Usage { prompt_tokens: 3, completion_tokens: 4, total_tokens: 7 });
    let events = GLMEventMapper::new().map_event(event);
    assert_eq!(events.len(), 1);
    match &events[0] {
        CompletionEvent::UsageUpdate(u) => {
            assert_eq!((u.input_tokens, u.output_tokens), (3, 4));
            assert_eq!((u.cache_creation_input_tokens, u.cache_read_input_tokens), (0, 0));
        }
        _ => panic!("no usage"),
    }
}

#[test]
fn tool_calls_are_collected() {
    let mut mapper = GLMEventMapper::new();
    let none = mapper.map_event(piece(
        None,
        None,
        Some(vec![
            chunk(1, Some("b"), Some("second"), Some("{\"x\"")),
            chunk(0, Some("a"), Some("first"), None),
        ]),
        None,
    ));
    assert!(none.is_empty());
    let events = mapper.map_event(piece(
        None,
        None,
        Some(vec![
            chunk(1, None, Some(""), Some(":1}")),
            ToolCallChunk { index: 0, id: Some("a2".to_string()), function: None },
        ]),
        Some("tool_calls"),
    ));
    assert_eq!(events.len(), 3);
    let calls: Vec<(String, String, String)> = events
        .into_iter()
        .filter_map(|e| match e {
            CompletionEvent::ToolCall(c) => Some((c.id, c.name, c.arguments)),
            _ => None,
        })
        .collect();
    let expected = |a: &str, b: &str, c: &str| (a.to_string(), b.to_string(), c.to_string());
    assert_eq!(
        calls,
        vec![expected("b", "second", "{\"x\":1}"), expected("a2", "first", "")]
    );
    let again = mapper.map_event(piece(None, None, None, Some("tool_calls")));
    assert_eq!(again.len(), 1);
    assert!(matches!(&again[0], CompletionEvent::Stop(StopReason::ToolUse)));
}

#[test]
fn tool_calls_are_resolved() {
    let raw = || RawToolCall {
        id: "i".to_string(),
        name: "n".to_string(),
        arguments: "[1]".to_string(),
    };
    match resolve_tool_call(raw(), Ok(json("[1]"))) {
        ToolUseEvent::ToolUse { id, name, is_input_complete, input, raw_input } => {
            assert_eq!((id.as_str(), name.as_str(), raw_input.as_str()), ("i", "n", "[1]"));
            assert!(is_input_complete);
            assert_eq!(input, json("[1]"));
        }
        _ => panic!("not read"),
    }
    match resolve_tool_call(raw(), Err("eof".to_string())) {
        ToolUseEvent::ToolUseJsonParseError { id, tool_name, raw_input, json_parse_error } => {
            assert_eq!((id.as_str(), tool_name.as_str()), ("i", "n"));
            assert_eq!((raw_input.as_str(), json_parse_error.as_str()), ("[1]", "eof"));
        }
        _ => panic!("read"),
    }
}
