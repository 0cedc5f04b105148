use ai_cli::agent::{
    api_error_lines, assistant_message, begin_turn, error_json, needs_line_break, raw_error_line,
    system_prompt, tool_message, wants_tools, Conversation, StreamDelta, StreamTurn,
    ToolCallDelta, ToolCalls, ToolRound, SYSTEM_PROMPT,
};
use ai_cli::session::{ChatMessage, Session};
use ai_cli::tools::ToolCallTracker;

fn delta(index: Option<u64>, id: Option<&str>, name: Option<&str>, args: Option<&str>) -> ToolCallDelta {
    ToolCallDelta {
        index,
        id: id.map(|s| s.to_string()),
        name: name.map(|s| s.to_string()),
        arguments: args.map(|s| s.to_string()),
    }
}

fn tracker(id: &str, name: &str, args: &str) -> ToolCallTracker {
    ToolCallTracker { id: id.to_string(), name: name.to_string(), arguments: args.to_string() }
}

fn triples(v: &[ToolCallTracker]) -> Vec<(String, String, String)> {
    v.iter().map(|t| (t.id.clone(), t.name.clone(), t.arguments.clone())).collect()
}

#[test]
fn deltas_build_calls_by_index() {
    let mut calls = ToolCalls::new();
    assert!(calls.is_empty());
    calls.apply(&delta(Some(1), Some("c1"), Some("read_file"), Some("{\"pa")));
    calls.apply(&delta(Some(0), Some("c0"), Some("list_dir"), Some("{}")));
    calls.apply(&delta(Some(1), None, None, Some("th\":\"a\"}")));
    calls.apply(&delta(None, Some("ignored"), None, None));
    assert!(!calls.is_empty());
    assert_eq!(
        triples(&calls.ordered()),
        vec![
            ("c0".to_string(), "list_dir".to_string(), "{}".to_string()),
            ("c1".to_string(), "read_file".to_string(), "{\"path\":\"a\"}".to_string()),
        ]
    );
}

#[test]
fn delta_replaces_id_and_name() {
    let mut calls = ToolCalls::new();
    calls.apply(&delta(Some(5), Some("a"), Some("x"), None));
    calls.apply(&delta(Some(5), Some("b"), Some("y"), Some("1")));
    assert_eq!(triples(&calls.ordered()), vec![("b".to_string(), "y".to_string(), "1".to_string())]);
}

#[test]
fn calls_from_list_keep_order() {
    let calls = ToolCalls::from_list(vec![tracker("a", "n1", "{}"), tracker("b", "n2", "[]")]);
    assert_eq!(
        triples(&calls.ordered()),
        vec![
            ("a".to_string(), "n1".to_string(), "{}".to_string()),
            ("b".to_string(), "n2".to_string(), "[]".to_string()),
        ]
    );
}

#[test]
fn stream_turn_gathers_text_and_calls() {
    let mut turn = StreamTurn::new();
    turn.apply(&StreamDelta { content: Some("Hel".to_string()), tool_calls: Vec::new() });
    turn.apply(&StreamDelta { content: None, tool_calls: vec![delta(Some(0), Some("i"), Some("list_dir"), Some("{"))] });
    turn.apply(&StreamDelta { content: Some("lo".to_string()), tool_calls: vec![delta(Some(0), None, None, Some("}"))] });
    assert_eq!(turn.response, "Hello");
    assert_eq!(triples(&turn.calls.ordered()), vec![("i".to_string(), "list_dir".to_string(), "{}".to_string())]);
}

#[test]
fn assistant_message_shape() {
    let calls = ToolCalls::from_list(vec![tracker("a", "list_dir", "{}")]);
    let m = assistant_message(&"text".to_string(), &calls);
    assert_eq!(m.role.as_deref(), Some("assistant"));
    assert_eq!(m.content.as_deref(), Some("text"));
    assert_eq!(triples(&m.tool_calls), vec![("a".to_string(), "list_dir".to_string(), "{}".to_string())]);
    let m = assistant_message(&String::new(), &ToolCalls::new());
    assert_eq!(m.content, None);
    assert!(m.tool_calls.is_empty());
}

#[test]
fn tools_wanted() {
    let none = ToolCalls::new();
    let some = ToolCalls::from_list(vec![tracker("a", "n", "{}")]);
    assert!(!wants_tools(&none, true, "tool_calls"));
    assert!(wants_tools(&some, true, "stop"));
    assert!(wants_tools(&some, false, "tool_calls"));
    assert!(!wants_tools(&some, false, "stop"));
}

#[test]
fn tool_message_shape() {
    let m = tool_message(&tracker("id7", "n", "{}"), "out".to_string());
    assert_eq!(m.role.as_deref(), Some("tool"));
    assert_eq!(m.content.as_deref(), Some("out"));
    assert_eq!(m.tool_call_id.as_deref(), Some("id7"));
}

#[test]
fn round_reuses_repeated_calls() {
    let mut c = Conversation::begin(Session::default(), "sys".to_string(), "q");
    let calls = vec![
        tracker("a", "read_file", "{}"),
        tracker("b", "list_dir", "{}"),
        tracker("c", "read_file", "{}"),
        tracker("d", "read_file", "{\"path\":1}"),
        tracker("e", "list_dir", "{}"),
    ];
    let mut round = ToolRound::new(calls);
    let mut ran = Vec::new();
    while let Some(call) = c.next_tool(&mut round) {
        assert!(round.awaits_result());
        ran.push(call.id.clone());
        c.deliver(&mut round, format!("result of {}", call.id));
    }
    assert_eq!(ran, vec!["a", "b", "d"]);
    let tools: Vec<(Option<String>, Option<String>)> = c.session().messages[1..]
        .iter()
        .map(|m| (m.tool_call_id.clone(), m.content.clone()))
        .collect();
    let expect = |id: &str, r: &str| (Some(id.to_string()), Some(format!("result of {}", r)));
    assert_eq!(tools, vec![expect("a", "a"), expect("b", "b"), expect("c", "a"), expect("d", "d"), expect("e", "b")]);
    assert_eq!(c.sent().len(), c.session().messages.len() + 1);
}

#[test]
fn empty_round_has_nothing_to_run() {
    let mut c = Conversation::begin(Session::default(), "sys".to_string(), "q");
    let mut round = ToolRound::new(Vec::new());
    assert!(!round.awaits_result());
    assert!(c.next_tool(&mut round).is_none());
    assert_eq!(c.session().messages.len(), 1);
}

#[test]
fn system_prompt_with_environment() {
    let p = system_prompt("linux", "x86_64", "/home/u");
    assert!(p.starts_with(SYSTEM_PROMPT));
    assert!(p.ends_with(
        "\n\nCURRENT ENVIRONMENT:\n- Operating System: linux\n- Architecture: x86_64\n- Current Working Directory: /home/u"
    ));
}

#[test]
fn begin_turn_sends_everything() {
    let mut s = Session::default();
    s.push(ChatMessage::text("user", "old".to_string()));
    let sent = begin_turn(&mut s, "sys".to_string(), "new");
    assert_eq!(s.messages.len(), 2);
    assert_eq!(s.messages[1].content.as_deref(), Some("new"));
    let contents: Vec<Option<&str>> = sent.iter().map(|m| m.content.as_deref()).collect();
    assert_eq!(contents, vec![Some("sys"), Some("old"), Some("new")]);
    assert_eq!(sent[0].role.as_deref(), Some("system"));
}

#[test]
fn conversation_keeps_sent_and_session_together() {
    let mut s = Session::default();
    s.push(ChatMessage::text("user", "q0".to_string()));
    let mut c = Conversation::begin(s, "sys".to_string(), "q1");
    let calls = ToolCalls::from_list(vec![tracker("a", "list_dir", "{}"), tracker("b", "read_file", "{}")]);
    let to_run = c.finish_reply(&String::new(), &calls, false, "tool_calls");
    assert_eq!(triples(&to_run).len(), 2);
    assert_eq!(to_run[0].id, "a");
    c.add_tool_result(&to_run[0], "r0".to_string());
    c.add_tool_result(&to_run[1], "r1".to_string());
    let again = c.finish_reply(&"done".to_string(), &ToolCalls::new(), false, "stop");
    assert!(again.is_empty());
    let session: Vec<Option<String>> = c.session().messages.iter().map(|m| m.content.clone()).collect();
    assert_eq!(
        session,
        vec![Some("q0".to_string()), Some("q1".to_string()), None, Some("r0".to_string()), Some("r1".to_string()), Some("done".to_string())]
    );
    assert_eq!(c.sent().len(), c.session().messages.len() + 1);
    assert_eq!(c.sent()[0].content.as_deref(), Some("sys"));
    for (k, m) in c.session().messages.iter().enumerate() {
        assert_eq!(c.sent()[k + 1].content, m.content);
        assert_eq!(c.sent()[k + 1].role, m.role);
    }
}

#[test]
fn conversation_stops_without_finish_reason() {
    let mut c = Conversation::begin(Session::default(), "sys".to_string(), "q");
    let calls = ToolCalls::from_list(vec![tracker("a", "list_dir", "{}")]);
    assert!(c.finish_reply(&String::new(), &calls, false, "stop").is_empty());
    let mut c = Conversation::begin(Session::default(), "sys".to_string(), "q");
    assert_eq!(c.finish_reply(&String::new(), &calls, true, "").len(), 1);
}

#[test]
fn api_errors_rate_limit() {
    assert_eq!(
        api_error_lines("rate_limit_exceeded", "slow down", false),
        vec!["\x1b[33m[Rate limit]\x1b[0m slow down".to_string()]
    );
    let r = api_error_lines("rate_limit_exceeded", "Request Too Large", true);
    assert_eq!(r.len(), 3);
    assert_eq!(r[0], "\n\x1b[33m[Rate limit]\x1b[0m Request Too Large");
    assert_eq!(r[1], "\x1b[2mTip: Your session history may be too large for this model's token limits.\x1b[0m");
}

#[test]
fn api_errors_context_and_other() {
    assert_eq!(
        api_error_lines("context_length_exceeded", "x", false),
        vec![
            "\x1b[33m[Context limit reached]\x1b[0m The conversation history is too long for this model.".to_string(),
            "\x1b[2mRun \x1b[0m\x1b[36mai clear\x1b[0m\x1b[2m to start a fresh session and try again.\x1b[0m".to_string(),
        ]
    );
    assert_eq!(api_error_lines("", "boom", true), vec!["\n\x1b[31m[Error: boom]\x1b[0m".to_string()]);
}

#[test]
fn stream_error_parts() {
    assert_eq!(error_json("Invalid status: {\"error\":{}}"), Some("{\"error\":{}}".to_string()));
    assert_eq!(error_json("no json"), None);
    assert_eq!(raw_error_line("Stream ended", true), None);
    assert_eq!(raw_error_line("unexpected EOF", true), None);
    assert_eq!(raw_error_line("reset", true), Some("\n\x1b[31m[Error: reset]\x1b[0m".to_string()));
    assert_eq!(raw_error_line("Stream ended", false), Some("\x1b[31m[Error: Stream ended]\x1b[0m".to_string()));
}

#[test]
fn line_break_after_tools() {
    assert!(needs_line_break("abc"));
    assert!(!needs_line_break("abc\n"));
    assert!(!needs_line_break(""));
}
