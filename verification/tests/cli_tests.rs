use ai_cli::cli::{Cli, Commands};

#[test]
fn cli_prompt_joins_words() {
    let cli = Cli { prompt: vec!["how".to_string(), "do".to_string(), "I".to_string()], prev_context: false, command: None };
    assert_eq!(cli.prompt_text(), "how do I");
    let cli = Cli { prompt: Vec::new(), prev_context: true, command: Some(Commands::History) };
    assert_eq!(cli.prompt_text(), "");
    assert!(matches!(cli.command, Some(Commands::History)));
}
