use vstd::prelude::*;

use crate::text::{join_seq, join_words, string_views};

verus! {

/// The subcommands of `ai`.
pub enum Commands {
    /// Save the Groq API key.
    SetKey { key: String },
    /// Set the model, or pick one from the list that Groq offers.
    SetModel { model: Option<String> },
    /// Print the conversation of this terminal window.
    History,
    /// Wipe the conversation of this terminal window.
    Clear,
    /// Write a commit message for the current changes and commit.
    Commit,
    /// Delete the session files of closed terminals.
    CleanAll,
    /// Run a command and keep its output in the conversation.
    Rec { cmd_args: Vec<String> },
    /// Switch between streaming and Markdown output.
    StreamToggle,
    /// Replace the program with its latest release.
    Update,
}

/// The command line of `ai`: a question in plain words, or a subcommand.
pub struct Cli {
    pub prompt: Vec<String>,
    pub prev_context: bool,
    pub command: Option<Commands>,
}

impl Cli {
    /// The question: the words of the command line, joined by spaces.
    pub fn prompt_text(&self) -> (s: String)
        ensures
            s@ == join_seq(string_views(self.prompt@), " "@),
    {
        join_words(&self.prompt)
    }
}

} // verus!
