use echo_agent::chat_turns::{
    history, messages_to_chat_turns, restore_message, stored_messages_to_chat_turns,
    wants_stored, ChatSegment, ChatTurn, ChatTurnRole, Message, Role, StoredMessage, ToolCall,
};
use echo_agent::json::{parse, print};

fn message(role: Role, content: &str) -> Message {
    Message {
        role,
        content: Some(content.to_string()),
        reasoning_content: None,
        tool_calls: vec![],
        tool_call_id: None,
        name: None,
    }
}

fn tool_call(id: &str, name: &str, arguments: &str) -> ToolCall {
    ToolCall {
        id: id.to_string(),
        call_type: "function".to_string(),
        name: name.to_string(),
        arguments: arguments.to_string(),
    }
}

fn stored(id: i64, role: &str, content: &str) -> StoredMessage {
    StoredMessage {
        id: Some(id),
        conversation_id: "conversation-1".to_string(),
        role: role.to_string(),
        content: Some(content.to_string()),
        attachments_json: None,
        tool_calls_json: None,
        tool_result_json: None,
        reasoning_content: None,
        created_at: format!("2026-06-17T00:00:0{}Z", id - 1),
    }
}

fn turn_text(turn: &ChatTurn) -> String {
    turn.segments
        .iter()
        .filter_map(|segment| match segment {
            ChatSegment::Text { content } => Some(content.as_str()),
            _ => None,
        })
        .collect::<Vec<_>>()
        .join("\n\n")
}

fn kinds(turn: &ChatTurn) -> Vec<&'static str> {
    turn.segments.iter().map(|segment| segment.kind()).collect()
}

#[test]
fn chat_turns_preserve_assistant_segment_order_and_tool_results() {
    let mut first_assistant = message(Role::Assistant, "I will inspect files.");
    first_assistant.tool_calls = vec![tool_call("call_find", "find", r#"{"path":"."}"#)];
    first_assistant.reasoning_content = Some("Need to inspect the tree.".to_string());

    let mut second_assistant = message(Role::Assistant, "This is a Rust project.");
    second_assistant.reasoning_content = Some("Now I can summarize.".to_string());

    let mut result = message(Role::Tool, "Cargo.toml\nsrc");
    result.tool_call_id = Some("call_find".to_string());
    result.name = Some("find".to_string());

    let messages = vec![
        message(Role::User, "Analyze this project"),
        first_assistant,
        result,
        second_assistant,
    ];

    let turns = messages_to_chat_turns(&messages);

    assert_eq!(turns.len(), 2);
    assert!(turns[0].role == ChatTurnRole::User);
    assert!(turns[1].role == ChatTurnRole::Assistant);
    assert_eq!(
        kinds(&turns[1]),
        vec!["thinking", "tool_call", "text", "thinking", "text"]
    );

    match &turns[1].segments[1] {
        ChatSegment::ToolCall { call } => {
            assert_eq!(call.id, "call_find");
            assert_eq!(call.name, "find");
            assert_eq!(print(&call.args), print(&parse(r#"{ "path": "." }"#).unwrap()));
            assert_eq!(call.result.as_deref(), Some("Cargo.toml\nsrc"));
            assert_eq!(call.error, None);
        }
        _ => panic!("expected tool_call segment"),
    }
}

#[test]
fn chat_turns_keep_only_first_system_message_in_visible_history() {
    let messages = vec![
        message(Role::System, "You are testing"),
        message(Role::User, "hello"),
        message(Role::System, "Repeated runtime prompt"),
        message(Role::Assistant, "hi"),
    ];

    let turns = messages_to_chat_turns(&messages);

    assert_eq!(turns.len(), 3);
    assert!(turns[0].role == ChatTurnRole::System);
    assert!(turns[1].role == ChatTurnRole::User);
    assert!(turns[2].role == ChatTurnRole::Assistant);
    assert_eq!(turn_text(&turns[0]), "You are testing");
    assert_eq!(turn_text(&turns[1]), "hello");
    assert_eq!(turn_text(&turns[2]), "hi");
}

#[test]
fn stored_messages_assemble_to_chat_turn_segments() {
    let mut assistant = stored(2, "assistant", "I will inspect files.");
    assistant.tool_calls_json = Some(
        r#"[{"id": "call_find", "type": "function",
            "function": {"name": "find", "arguments": "{\"path\":\".\"}"}}]"#
            .to_string(),
    );
    assistant.reasoning_content = Some("Need to inspect the tree.".to_string());
    let mut tool = stored(3, "tool", "Cargo.toml\nsrc");
    tool.tool_result_json = Some(r#"{"tool_call_id": "call_find", "name": "find"}"#.to_string());
    let stored = vec![stored(1, "user", "Analyze this project"), assistant, tool];

    let turns = stored_messages_to_chat_turns(&stored);

    assert_eq!(turns.len(), 2);
    assert_eq!(kinds(&turns[1]), vec!["thinking", "tool_call", "text"]);
    match &turns[1].segments[1] {
        ChatSegment::ToolCall { call } => {
            assert_eq!(call.result.as_deref(), Some("Cargo.toml\nsrc"));
        }
        _ => panic!("expected tool_call segment"),
    }
}

#[test]
fn broken_stored_calls_are_dropped() {
    let mut m = stored(1, "assistant", "text");
    m.tool_calls_json = Some("{not json".to_string());
    let restored = restore_message(&m);
    assert!(restored.tool_calls.is_empty());
    assert_eq!(restored.content.as_deref(), Some("text"));
}

#[test]
fn custom_roles_and_call_types_are_restored() {
    let mut m = stored(1, "observer", "text");
    m.tool_calls_json = Some(
        "[{\"id\":\"c1\",\"type\":\"custom\",\"function\":{\"name\":\"ls\",\"arguments\":\"{}\"}}]"
            .to_string(),
    );
    let restored = restore_message(&m);
    assert!(matches!(restored.role, Role::Custom(name) if name == "observer"));
    assert_eq!(restored.tool_calls.len(), 1);
    assert_eq!(restored.tool_calls[0].call_type, "custom");
    assert_eq!(restored.tool_calls[0].name, "ls");
}

#[test]
fn stored_history_is_the_fallback() {
    let kept = vec![stored(1, "user", "from disk"), stored(2, "assistant", "ok")];
    assert!(wants_stored(0));
    assert!(wants_stored(1));
    assert!(!wants_stored(2));
    assert!(history(&vec![], &vec![stored(1, "user", "alone")]).is_empty());
    assert_eq!(turn_text(&history(&vec![], &kept)[0]), "from disk");
    let remembered = vec![message(Role::User, "from memory"), message(Role::Assistant, "yes")];
    assert_eq!(turn_text(&history(&remembered, &kept)[0]), "from memory");
}
