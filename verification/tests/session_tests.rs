use ai_cli::session::{
    cleaned_message, clear_message, history_lines, is_session_file, session_file_line,
    session_file_name, session_file_pid, ChatMessage, Session,
};

#[test]
fn session_name_for_pid() {
    assert_eq!(session_file_name(4242), "ai_session_4242.json");
    assert_eq!(session_file_name(0), "ai_session_0.json");
}

#[test]
fn session_name_roundtrip() {
    for pid in [0u32, 7, 4242, u32::MAX] {
        let name = session_file_name(pid);
        assert!(is_session_file(&name));
        assert_eq!(session_file_pid(&name), Some(pid));
    }
}

#[test]
fn session_file_recognition() {
    assert!(is_session_file("ai_session_12.json"));
    assert!(is_session_file("ai_session_x.json"));
    assert!(!is_session_file("ai_session_12.txt"));
    assert!(!is_session_file("other_12.json"));
}

#[test]
fn session_pid_parsing() {
    assert_eq!(session_file_pid("ai_session_x.json"), None);
    assert_eq!(session_file_pid("ai_session_.json"), None);
    assert_eq!(session_file_pid("ai_session_+5.json"), Some(5));
    assert_eq!(session_file_pid("ai_session_4294967296.json"), None);
    assert_eq!(session_file_pid("ai_session.json"), None);
}

#[test]
fn session_push_keeps_order() {
    let mut s = Session::default();
    s.push(ChatMessage::text("user", "a".to_string()));
    s.push(ChatMessage::text("assistant", "b".to_string()));
    assert_eq!(s.messages.len(), 2);
    assert_eq!(s.messages[0].content.as_deref(), Some("a"));
    assert_eq!(s.messages[1].role.as_deref(), Some("assistant"));
}

#[test]
fn history_of_empty_session() {
    assert_eq!(history_lines(&Vec::new()), vec!["No history for this session.\n".to_string()]);
}

#[test]
fn history_shows_user_and_assistant() {
    let msgs = vec![
        ChatMessage::text("system", "sys".to_string()),
        ChatMessage::text("user", "hi".to_string()),
        ChatMessage::text("assistant", "hello".to_string()),
        ChatMessage::text("tool", "out".to_string()),
        ChatMessage::text("assistant", String::new()),
        ChatMessage::text("critic", "hm".to_string()),
    ];
    assert_eq!(
        history_lines(&msgs),
        vec![
            String::new(),
            "\x1b[33m[You]\x1b[0m hi\n".to_string(),
            "\x1b[36m[AI]\x1b[0m hello\n".to_string(),
            "\x1b[36m[critic]\x1b[0m hm\n".to_string(),
        ]
    );
}

#[test]
fn history_message_without_role_is_unknown() {
    let m = ChatMessage { role: None, content: Some("x".to_string()), tool_calls: Vec::new(), tool_call_id: None };
    assert_eq!(history_lines(&vec![m]), vec![String::new(), "\x1b[36m[unknown]\x1b[0m x\n".to_string()]);
}

#[test]
fn history_footer_and_cleanup_messages() {
    assert_eq!(session_file_line("/tmp/a.json"), "\x1b[2mSession file: /tmp/a.json\x1b[0m \n");
    assert_eq!(clear_message(true), "✓ Session history cleared.");
    assert_eq!(clear_message(false), "No history to clear.\n");
    assert_eq!(cleaned_message(3), "✓ Cleared 3 session(s) across all terminals.\n");
    assert_eq!(cleaned_message(0), "✓ Cleared 0 session(s) across all terminals.\n");
}
