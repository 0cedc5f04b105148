use ai_cli::commands::commit::{
    commit_args, commit_confirmed, commit_messages, diff_can_be_cut, is_blank, pick_diff, prepare_diff,
    COMMIT_PROMPT,
};
use ai_cli::commands::models::{
    apply_choice, choose_model, fallback_message, model_table, offered, switched_text, ModelChoice,
    ModelInfo, RawModel,
};
use ai_cli::commands::record::{
    gather_output, rec_command, rec_context, record_context, running_line, spawn_error,
    spawn_failure_context,
};
use ai_cli::commands::update::{
    asset_name, check_failed_message, check_update, find_asset, updated_message, version_from_tag,
    UpdateCheck, CURRENT_VERSION,
};
use ai_cli::config::Config;
use ai_cli::session::Session;

fn raw(id: Option<&str>, owner: Option<&str>, ctx: Option<u64>) -> RawModel {
    RawModel { id: id.map(|s| s.to_string()), owned_by: owner.map(|s| s.to_string()), context_window: ctx }
}

fn model(id: &str, owner: &str, ctx: u64) -> ModelInfo {
    ModelInfo { id: id.to_string(), owner: owner.to_string(), context: ctx }
}

#[test]
fn commit_diff_choice() {
    assert!(is_blank(" \n\t"));
    assert!(!is_blank("diff"));
    assert_eq!(pick_diff("s".to_string(), "u".to_string()), Some(("s".to_string(), false)));
    assert_eq!(pick_diff("  ".to_string(), "u".to_string()), Some(("u".to_string(), true)));
    assert_eq!(pick_diff(String::new(), "\n".to_string()), None);
}

#[test]
fn commit_diff_is_cut() {
    assert_eq!(prepare_diff("small"), "small");
    let big = "d".repeat(15001);
    assert_eq!(prepare_diff(&big), format!("{}\n...[diff truncated]...", "d".repeat(15000)));
    let exact = "d".repeat(15000);
    assert_eq!(prepare_diff(&exact), exact);
}

#[test]
fn commit_request_and_answer() {
    let m = commit_messages("diff --git".to_string());
    assert_eq!(m.len(), 2);
    assert_eq!(m[0].content.as_deref(), Some(COMMIT_PROMPT));
    assert_eq!(m[1].role.as_deref(), Some("user"));
    assert_eq!(m[1].content.as_deref(), Some("diff --git"));
    assert!(commit_confirmed("\n"));
    assert!(commit_confirmed("Y"));
    assert!(commit_confirmed(" yes "));
    assert!(!commit_confirmed("n"));
    assert_eq!(commit_args(true, "feat: x"), vec!["commit", "-a", "-m", "feat: x"]);
    assert_eq!(commit_args(false, "fix: y"), vec!["commit", "-m", "fix: y"]);
}

#[test]
fn models_filtered_and_sorted() {
    let list = vec![
        raw(Some("whisper-large-v3"), Some("OpenAI"), Some(448)),
        raw(Some("llama-3.3-70b"), Some("Meta"), Some(131072)),
        raw(None, Some("x"), None),
        raw(Some("gemma2-9b-it"), None, None),
        raw(Some("Zeta"), Some("Z"), Some(1)),
    ];
    let m = offered(&list);
    let ids: Vec<&str> = m.iter().map(|x| x.id.as_str()).collect();
    assert_eq!(ids, vec!["Zeta", "gemma2-9b-it", "llama-3.3-70b"]);
    assert_eq!(m[1].owner, "unknown");
    assert_eq!(m[1].context, 0);
    assert_eq!(m[2].context, 131072);
}

#[test]
fn models_sort_keeps_duplicates() {
    let list = vec![raw(Some("b"), Some("1"), None), raw(Some("a"), None, None), raw(Some("b"), Some("2"), None)];
    let m = offered(&list);
    let pairs: Vec<(&str, &str)> = m.iter().map(|x| (x.id.as_str(), x.owner.as_str())).collect();
    assert_eq!(pairs, vec![("a", "unknown"), ("b", "1"), ("b", "2")]);
}

#[test]
fn models_table_layout() {
    let models = vec![model("gemma2-9b-it", "Google", 8192), model("x", "Meta", 0)];
    let t = model_table(&models);
    assert_eq!(
        t,
        vec![
            String::new(),
            "\x1b[1mAvailable Models\x1b[0m".to_string(),
            "No.  | Model ID     | Owner  | Context Window".to_string(),
            "-----+--------------+--------+---------------".to_string(),
            "1    | \x1b[36mgemma2-9b-it\x1b[0m | Google | 8192          ".to_string(),
            "2    | \x1b[36mx           \x1b[0m | Meta   | Unknown       ".to_string(),
            String::new(),
        ]
    );
}

#[test]
fn models_table_minimum_widths() {
    let t = model_table(&vec![model("a", "b", 5)]);
    assert_eq!(t[2], "No.  | Model ID | Owner | Context Window");
    assert_eq!(t[3], "-----+----------+-------+---------------");
    assert_eq!(t[4], "1    | \x1b[36ma       \x1b[0m | b     | 5             ");
}

#[test]
fn models_choice() {
    assert_eq!(choose_model("\n", 3), ModelChoice::Cancel);
    assert_eq!(choose_model(" 2 \n", 3), ModelChoice::Pick(1));
    assert_eq!(choose_model("3", 3), ModelChoice::Pick(2));
    assert_eq!(choose_model("0", 3), ModelChoice::OutOfRange);
    assert_eq!(choose_model("4", 3), ModelChoice::OutOfRange);
    assert_eq!(choose_model("two", 3), ModelChoice::NotANumber);
    assert_eq!(choose_model("-1", 3), ModelChoice::NotANumber);
}

#[test]
fn models_apply_choice() {
    let models = vec![model("a", "o", 1), model("b", "o", 1)];
    let mut c = Config::default();
    assert_eq!(apply_choice(ModelChoice::Pick(1), &models, &mut c), "✓ Model switched to b.\n");
    assert_eq!(c.model, "b");
    assert_eq!(apply_choice(ModelChoice::Cancel, &models, &mut c), "Cancelled. Keeping model: b\n");
    assert_eq!(
        apply_choice(ModelChoice::OutOfRange, &models, &mut c),
        "\x1b[31mInvalid selection.\x1b[0m Keeping model: b\n"
    );
    assert_eq!(
        apply_choice(ModelChoice::NotANumber, &models, &mut c),
        "\x1b[31mInvalid input.\x1b[0m Keeping model: b\n"
    );
    assert_eq!(c.model, "b");
    assert_eq!(switched_text("m"), "✓ Model switched to m.\n");
}

#[test]
fn record_command_line() {
    assert_eq!(rec_command(&Vec::new()), None);
    assert_eq!(rec_command(&vec!["cargo".to_string(), "build".to_string()]), Some("cargo build".to_string()));
    assert_eq!(running_line("ls"), "\x1b[2m[ai rec] Running: ls\x1b[0m\n");
}

#[test]
fn record_contexts() {
    assert_eq!(gather_output(&vec!["a".to_string(), "b\n".to_string(), "c".to_string()]), "ab\nc");
    assert_eq!(
        rec_context("ls", "exit status: 0", "x\n"),
        "User ran command: `ls`\nExit status: exit status: 0\nOutput:\n```\nx\n\n```"
    );
    let e = spawn_error("zz", "No such file");
    assert_eq!(e, "Failed to run command 'zz': No such file");
    assert_eq!(
        spawn_failure_context("zz", &e),
        "User attempted to run command: `zz`\nBut it failed to spawn:\nFailed to run command 'zz': No such file"
    );
}

#[test]
fn record_into_session() {
    let mut s = Session::default();
    record_context(&mut s, "ctx".to_string());
    assert_eq!(s.messages.len(), 1);
    assert_eq!(s.messages[0].role.as_deref(), Some("user"));
    assert_eq!(s.messages[0].content.as_deref(), Some("ctx"));
}

#[test]
fn update_versions() {
    assert_eq!(version_from_tag(&Some("v0.2.0".to_string())), "0.2.0");
    assert_eq!(version_from_tag(&Some("vv1".to_string())), "1");
    assert_eq!(version_from_tag(&Some("1.0".to_string())), "1.0");
    assert_eq!(version_from_tag(&None), "");
    assert_eq!(CURRENT_VERSION, "0.1.7");
}

#[test]
fn update_check() {
    match check_update("0.1.7", "0.1.7") {
        UpdateCheck::UpToDate(t) => assert_eq!(t, "You are already running the latest version (\x1b[36mv0.1.7\x1b[0m)."),
        _ => panic!("expected up to date"),
    }
    match check_update("0.1.7", "0.2.0") {
        UpdateCheck::Available(t) => assert_eq!(t, "Update found: \x1b[33mv0.1.7\x1b[0m -> \x1b[32mv0.2.0\x1b[0m"),
        _ => panic!("expected an update"),
    }
}

#[test]
fn update_assets() {
    assert_eq!(asset_name(true), "ai.exe");
    assert_eq!(asset_name(false), "ai");
    let names = Some(vec![None, Some("ai.exe".to_string()), Some("ai".to_string()), Some("ai".to_string())]);
    assert_eq!(find_asset(&names, "ai"), Ok(2));
    assert_eq!(find_asset(&names, "ai.exe"), Ok(1));
    assert_eq!(find_asset(&names, "x"), Err("Could not find 'x' in the release assets.".to_string()));
    assert_eq!(find_asset(&None, "ai"), Err("No assets found in release".to_string()));
}

#[test]
fn update_messages() {
    assert_eq!(updated_message("0.2.0"), "✓ Successfully updated to \x1b[32mv0.2.0\x1b[0m!");
    assert_eq!(
        check_failed_message("404 Not Found"),
        "\x1b[31mFailed to check for updates.\x1b[0m API responded with: 404 Not Found"
    );
}

#[test]
fn commit_diff_cut_must_fall_between_characters() {
    assert!(diff_can_be_cut("small"));
    assert!(diff_can_be_cut(&"é".repeat(8000)));
    assert!(!diff_can_be_cut(&format!("a{}", "é".repeat(8000))));
    assert_eq!(prepare_diff(&"é".repeat(8000)), format!("{}\n...[diff truncated]...", "é".repeat(7500)));
}

#[test]
fn models_fallback() {
    assert_eq!(fallback_message("m"), "Fallback: continuing with default model (m).");
}
