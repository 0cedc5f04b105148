use ai_cli::tools::{
    consent, denies, get_tools, plan_tool, report_can_be_cut, tool_result, DirEntryInfo, ToolArgs, ToolCallTracker,
    ToolOperation, ToolOutcome, ToolPlan,
};

fn args(command: Option<&str>, path: Option<&str>, content: Option<&str>) -> ToolArgs {
    ToolArgs {
        command: command.map(|s| s.to_string()),
        path: path.map(|s| s.to_string()),
        content: content.map(|s| s.to_string()),
    }
}

#[test]
fn tracker_default_is_empty() {
    let t = ToolCallTracker::default();
    assert_eq!(t.id, "");
    assert_eq!(t.name, "");
    assert_eq!(t.arguments, "");
}

#[test]
fn tools_offered() {
    let tools = get_tools();
    let names: Vec<&str> = tools.iter().map(|t| t.name.as_str()).collect();
    assert_eq!(names, vec!["execute_cmd", "read_file", "list_dir", "write_file"]);
    assert_eq!(tools[3].required, vec!["path".to_string(), "content".to_string()]);
    assert_eq!(tools[1].description, "Read the contents of a file.");
}

#[test]
fn plan_command_asks_first() {
    match plan_tool("execute_cmd", Ok(args(Some("ls"), None, None))) {
        ToolPlan::Confirm { prompt, operation: ToolOperation::RunCommand { command } } => {
            assert_eq!(prompt, "\n\x1b[33m[Agent] Wants to run command:\x1b[0m ls\nAllow? [Y/n]: ");
            assert_eq!(command, "ls");
        }
        _ => panic!("expected a confirmation"),
    }
}

#[test]
fn plan_read_and_list_go_ahead() {
    match plan_tool("read_file", Ok(args(None, Some("a.txt"), None))) {
        ToolPlan::Perform { notice, operation: ToolOperation::ReadFile { path } } => {
            assert_eq!(notice, "\x1b[2m[Agent] Reading file: a.txt\x1b[0m");
            assert_eq!(path, "a.txt");
        }
        _ => panic!("expected a read"),
    }
    match plan_tool("list_dir", Ok(args(None, None, None))) {
        ToolPlan::Perform { notice, operation: ToolOperation::ListDir { path } } => {
            assert_eq!(notice, "\x1b[2m[Agent] Listing dir: .\x1b[0m");
            assert_eq!(path, ".");
        }
        _ => panic!("expected a listing"),
    }
}

#[test]
fn plan_write_asks_first() {
    match plan_tool("write_file", Ok(args(None, Some("f"), Some("x")))) {
        ToolPlan::Confirm { prompt, operation: ToolOperation::WriteFile { path, content } } => {
            assert_eq!(prompt, "\n\x1b[33m[Agent] Wants to write to file:\x1b[0m f\nAllow? [Y/n]: ");
            assert_eq!(path, "f");
            assert_eq!(content, "x");
        }
        _ => panic!("expected a confirmation"),
    }
}

#[test]
fn plan_errors_answer_at_once() {
    match plan_tool("execute_cmd", Err("EOF while parsing".to_string())) {
        ToolPlan::Reply { text } => assert_eq!(text, "Tool argument parse error: EOF while parsing"),
        _ => panic!("expected a reply"),
    }
    match plan_tool("fly", Ok(args(None, None, None))) {
        ToolPlan::Reply { text } => assert_eq!(text, "Unknown tool: fly"),
        _ => panic!("expected a reply"),
    }
}

#[test]
fn denial_answers() {
    assert!(denies("n\n"));
    assert!(denies("  NO "));
    assert!(!denies(""));
    assert!(!denies("y"));
    assert!(!denies("nope"));
}

#[test]
fn consent_replies() {
    let run = ToolOperation::RunCommand { command: "ls".to_string() };
    let write = ToolOperation::WriteFile { path: "f".to_string(), content: String::new() };
    assert_eq!(consent(&run, "n"), Some("User denied permission to run the command.".to_string()));
    assert_eq!(consent(&write, "No\n"), Some("User denied permission to write the file.".to_string()));
    assert_eq!(consent(&run, "\n"), None);
    assert_eq!(consent(&write, "yes"), None);
}

#[test]
fn result_of_command() {
    let o = ToolOutcome::Command {
        status: "exit status: 0".to_string(),
        stdout: "hi".to_string(),
        stderr: String::new(),
    };
    assert_eq!(tool_result(&o), "Exit status: exit status: 0\nStdout:\nhi\n");
    let o = ToolOutcome::Command {
        status: "exit status: 1".to_string(),
        stdout: String::new(),
        stderr: "bad".to_string(),
    };
    assert_eq!(tool_result(&o), "Exit status: exit status: 1\nStderr:\nbad\n");
}

#[test]
fn result_of_long_command_is_cut() {
    let o = ToolOutcome::Command {
        status: "exit status: 0".to_string(),
        stdout: "a".repeat(20000),
        stderr: String::new(),
    };
    let r = tool_result(&o);
    let full = format!("Exit status: exit status: 0\nStdout:\n{}\n", "a".repeat(20000));
    assert_eq!(r, format!("{}\n...[output truncated]...", &full[..10000]));
}

#[test]
fn result_of_other_outcomes() {
    assert_eq!(tool_result(&ToolOutcome::SpawnFailed { error: "e".to_string() }), "Failed to spawn command: e");
    assert_eq!(tool_result(&ToolOutcome::FileRead { content: "body".to_string() }), "body");
    assert_eq!(tool_result(&ToolOutcome::ReadFailed { error: "e".to_string() }), "Failed to read file: e");
    assert_eq!(tool_result(&ToolOutcome::ListFailed { error: "e".to_string() }), "Failed to list dir: e");
    assert_eq!(tool_result(&ToolOutcome::Written { path: "p".to_string() }), "Successfully wrote to p");
    assert_eq!(tool_result(&ToolOutcome::WriteFailed { error: "e".to_string() }), "Failed to write file: e");
}

#[test]
fn result_of_listing() {
    assert_eq!(tool_result(&ToolOutcome::DirListed { entries: Vec::new() }), "[Empty directory]");
    let entries = vec![
        DirEntryInfo { name: "src".to_string(), is_dir: true },
        DirEntryInfo { name: "a.rs".to_string(), is_dir: false },
    ];
    assert_eq!(tool_result(&ToolOutcome::DirListed { entries }), "src/\na.rs\n");
}

#[test]
fn report_cut_must_fall_between_characters() {
    let short = ToolOutcome::Command { status: "0".to_string(), stdout: "é".repeat(10).to_string(), stderr: String::new() };
    assert!(report_can_be_cut(&short));
    // "Exit status: 0\nStdout:\n" takes 23 bytes; then two-byte characters: byte 10000 is inside one
    let odd = ToolOutcome::Command { status: "0".to_string(), stdout: "é".repeat(10000), stderr: String::new() };
    assert!(!report_can_be_cut(&odd));
    let even = ToolOutcome::Command { status: "0".to_string(), stdout: format!("a{}", "é".repeat(10000)), stderr: String::new() };
    assert!(report_can_be_cut(&even));
    let r = tool_result(&even);
    assert!(r.ends_with("\n...[output truncated]..."));
    assert_eq!(r.len(), 10000 + "\n...[output truncated]...".len());
    assert!(report_can_be_cut(&ToolOutcome::FileRead { content: "é".repeat(20000) }));
}
