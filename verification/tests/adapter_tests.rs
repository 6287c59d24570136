use cortiq_gateway::adapters::{
    anthropic_messages, chat_tool_routing, completion_prompt, content_to_string, mcp_method, mcp_tool,
    method_not_found, native_text, prompt_to_string, protocol_version, require_messages, unknown_tool,
    McpMethod, McpTool, TextValue, TurnIn,
};
use cortiq_gateway::model::RoutingDirective;

fn some(s: &str) -> Option<String> {
    Some(s.to_string())
}

#[test]
fn content_blocks_join_without_separator() {
    assert_eq!(content_to_string(&TextValue::Text("hi".into())), "hi");
    assert_eq!(content_to_string(&TextValue::List(vec![some("a"), None, some("b")])), "ab");
    assert_eq!(content_to_string(&TextValue::Other), "");
}

#[test]
fn prompt_lists_join_with_newlines() {
    assert_eq!(prompt_to_string(&TextValue::List(vec![some("one"), None, some("two")])), "one\ntwo");
    assert_eq!(prompt_to_string(&TextValue::List(vec![None, some("x")])), "x");
    assert_eq!(prompt_to_string(&TextValue::List(vec![])), "");
    assert_eq!(completion_prompt(&TextValue::Text("p".into())).ok(), Some("p".to_string()));
    match completion_prompt(&TextValue::Other) {
        Err(e) => assert_eq!(e.message(), "prompt must not be empty"),
        Ok(_) => panic!("an empty prompt is refused"),
    }
}

#[test]
fn anthropic_conversation_becomes_turns() {
    let turns = vec![
        TurnIn { role: None, content: TextValue::List(vec![some("hel"), some("lo")]) },
        TurnIn { role: some("assistant"), content: TextValue::Text("yes".into()) },
    ];
    let ms = anthropic_messages(&TextValue::Text("be brief".into()), &turns).ok().unwrap();
    let pairs: Vec<(String, String)> = ms.into_iter().map(|m| (m.role, m.content)).collect();
    assert_eq!(
        pairs,
        vec![
            ("system".to_string(), "be brief".to_string()),
            ("user".to_string(), "hello".to_string()),
            ("assistant".to_string(), "yes".to_string()),
        ]
    );
    let ms = anthropic_messages(&TextValue::Other, &turns).ok().unwrap();
    assert_eq!(ms.len(), 2);
    match anthropic_messages(&TextValue::Other, &vec![]) {
        Err(e) => assert_eq!(e.message(), "messages must not be empty"),
        Ok(_) => panic!("a request without turns is refused"),
    }
    assert!(require_messages(1).is_ok());
    assert!(require_messages(0).is_err());
}

#[test]
fn native_text_order_and_refusal() {
    assert_eq!(native_text(some("a"), some("b"), some("c")).ok(), some("a"));
    assert_eq!(native_text(None, some("b"), some("c")).ok(), some("b"));
    assert_eq!(native_text(None, None, some("c")).ok(), some("c"));
    match native_text(None, None, None) {
        Err(e) => assert_eq!(
            e.message(),
            "missing input text (use {\"text\": ...} or {\"input\": {\"text\": ...}})"
        ),
        Ok(_) => panic!("no text is refused"),
    }
    assert!(native_text(some(""), some("b"), None).is_err());
}

#[test]
fn mcp_dispatch() {
    assert!(matches!(mcp_method(&some("ping"), false), McpMethod::Notification));
    assert!(matches!(mcp_method(&some("notifications/initialized"), true), McpMethod::Notification));
    assert!(matches!(mcp_method(&some("initialize"), true), McpMethod::Initialize));
    assert!(matches!(mcp_method(&some("ping"), true), McpMethod::Ping));
    assert!(matches!(mcp_method(&some("tools/list"), true), McpMethod::ToolsList));
    assert!(matches!(mcp_method(&some("tools/call"), true), McpMethod::ToolsCall));
    assert!(matches!(mcp_method(&None, true), McpMethod::NotFound));
    assert_eq!(method_not_found(&some("x/y")), (-32601, "method not found: x/y".to_string()));
    assert_eq!(method_not_found(&None), (-32601, "method not found: ".to_string()));
    assert!(matches!(mcp_tool(&some("cortiq_route")), McpTool::Route));
    assert!(matches!(mcp_tool(&some("cortiq_chat")), McpTool::Chat));
    assert!(matches!(mcp_tool(&some("other")), McpTool::Unknown));
    assert_eq!(unknown_tool(&some("other")), (-32602, "unknown tool 'other'".to_string()));
    assert_eq!(protocol_version(&None), "2024-11-05");
    assert_eq!(protocol_version(&some("2025-03-26")), "2025-03-26");
}

#[test]
fn chat_tool_defaults_to_auto_routing() {
    match chat_tool_routing(&None) {
        RoutingDirective::Auto { profile } => assert_eq!(profile, None),
        _ => panic!("expected auto routing"),
    }
    match chat_tool_routing(&some("cortiq-auto:fast")) {
        RoutingDirective::Auto { profile } => assert_eq!(profile, some("fast")),
        _ => panic!("expected auto routing"),
    }
    match chat_tool_routing(&some("gpt-4o")) {
        RoutingDirective::Pinned { model_id } => assert_eq!(model_id, "gpt-4o"),
        _ => panic!("expected a pinned model"),
    }
}
