use vstd::prelude::*;

use crate::text::{chars_to_string, lit, push_str};

verus! {

/// The user's settings, kept in `~/.terminal_ai.json`.
pub struct Config {
    pub api_key: Option<String>,
    pub model: String,
    pub streaming: bool,
}

pub struct ConfigView {
    pub api_key: Option<Seq<char>>,
    pub model: Seq<char>,
    pub streaming: bool,
}

impl View for Config {
    type V = ConfigView;

    open spec fn view(&self) -> ConfigView {
        ConfigView { api_key: self.api_key.deep_view(), model: self.model@, streaming: self.streaming }
    }
}

/// The model used until the user picks another.
pub open spec fn default_model() -> Seq<char> {
    "openai/gpt-oss-20b"@
}

/// The settings with the other output mode.
pub open spec fn toggled(c: ConfigView) -> ConfigView {
    ConfigView { streaming: !c.streaming, ..c }
}

impl Default for Config {
    /// No API key, the default model, streaming output.
    fn default() -> (c: Self)
        ensures
            c@ == (ConfigView { api_key: None, model: default_model(), streaming: true }),
    {
        Config { api_key: None, model: lit("openai/gpt-oss-20b"), streaming: true }
    }
}

impl Config {
    /// Stores the API key.
    pub fn set_key(&mut self, key: String)
        ensures
            final(self)@ == (ConfigView { api_key: Some(key@), ..old(self)@ }),
    {
        self.api_key = Some(key);
    }

    /// Chooses the model.
    pub fn set_model(&mut self, model: String)
        ensures
            final(self)@ == (ConfigView { model: model@, ..old(self)@ }),
    {
        self.model = model;
    }

    /// Switches between streaming and Markdown output.
    pub fn toggle_streaming(&mut self)
        ensures
            final(self)@ == toggled(old(self)@),
    {
        self.streaming = !self.streaming;
    }
}

/// What is shown when a request needs the API key and none is set.
pub open spec fn no_key_hint() -> Seq<char> {
    "No API key set. Run:  ai set-key YOUR_KEY"@
}

impl Config {
    /// The API key, or, where none is set, the hint to set one.
    pub fn api_key_or_hint(&self) -> (r: Result<String, String>)
        ensures
            match r {
                Ok(k) => self.api_key.deep_view() == Some(k@),
                Err(h) => self.api_key is None && h@ == no_key_hint(),
            },
    {
        match &self.api_key {
            Some(k) => Ok(k.clone()),
            None => Err(lit("No API key set. Run:  ai set-key YOUR_KEY")),
        }
    }
}

/// Toggling the output mode twice gives back the settings one started with.
pub proof fn lemma_toggle_twice(c: ConfigView)
    ensures
        toggled(toggled(c)) == c,
{
}

/// The confirmation that `ai stream-toggle` prints.
pub open spec fn stream_mode_message(streaming: bool) -> Seq<char> {
    "✓ Switched to "@ + (if streaming {
        "\x1b[32mstreaming\x1b[0m (live output)"@
    } else {
        "\x1b[35mnon-streaming\x1b[0m (rendered Markdown)"@
    }) + " mode."@
}

/// The confirmation that `ai stream-toggle` prints for the new mode.
pub fn stream_toggle_message(streaming: bool) -> (s: String)
    ensures
        s@ == stream_mode_message(streaming),
{
    let mut v: Vec<char> = Vec::new();
    push_str(&mut v, "✓ Switched to ");
    if streaming {
        push_str(&mut v, "\x1b[32mstreaming\x1b[0m (live output)");
    } else {
        push_str(&mut v, "\x1b[35mnon-streaming\x1b[0m (rendered Markdown)");
    }
    push_str(&mut v, " mode.");
    chars_to_string(&v)
}

/// The header printed above an answer: the model, and `· markdown` in Markdown mode.
pub open spec fn chat_header_text(model: Seq<char>, streaming: bool) -> Seq<char> {
    "\n\x1b[36m["@ + model + "]"@ + (if streaming {
        Seq::empty()
    } else {
        " · markdown"@
    }) + "\x1b[0m\n"@
}

/// The header printed above an answer.
pub fn chat_header(model: &str, streaming: bool) -> (s: String)
    ensures
        s@ == chat_header_text(model@, streaming),
{
    let mut v: Vec<char> = Vec::new();
    push_str(&mut v, "\n\x1b[36m[");
    push_str(&mut v, model);
    push_str(&mut v, "]");
    if !streaming {
        push_str(&mut v, " · markdown");
    }
    push_str(&mut v, "\x1b[0m\n");
    chars_to_string(&v)
}

} // verus!
