use ai_cli::config::{chat_header, stream_toggle_message, Config};

#[test]
fn config_default_values() {
    let c = Config::default();
    assert!(c.api_key.is_none());
    assert_eq!(c.model, "openai/gpt-oss-20b");
    assert!(c.streaming);
}

#[test]
fn config_set_key_and_model() {
    let mut c = Config::default();
    c.set_key("gsk_1".to_string());
    c.set_model("llama-3.3-70b-versatile".to_string());
    assert_eq!(c.api_key.as_deref(), Some("gsk_1"));
    assert_eq!(c.model, "llama-3.3-70b-versatile");
    assert!(c.streaming);
}

#[test]
fn config_toggle_twice_restores() {
    let mut c = Config::default();
    c.toggle_streaming();
    assert!(!c.streaming);
    c.toggle_streaming();
    assert!(c.streaming);
    assert_eq!(c.model, "openai/gpt-oss-20b");
}

#[test]
fn config_toggle_messages() {
    assert_eq!(
        stream_toggle_message(true),
        "✓ Switched to \x1b[32mstreaming\x1b[0m (live output) mode."
    );
    assert_eq!(
        stream_toggle_message(false),
        "✓ Switched to \x1b[35mnon-streaming\x1b[0m (rendered Markdown) mode."
    );
}

#[test]
fn config_chat_header() {
    assert_eq!(chat_header("m1", true), "\n\x1b[36m[m1]\x1b[0m\n");
    assert_eq!(chat_header("m1", false), "\n\x1b[36m[m1] · markdown\x1b[0m\n");
}

#[test]
fn config_api_key_or_hint() {
    let mut c = Config::default();
    assert_eq!(c.api_key_or_hint(), Err("No API key set. Run:  ai set-key YOUR_KEY".to_string()));
    c.set_key("k".to_string());
    assert_eq!(c.api_key_or_hint(), Ok("k".to_string()));
}
