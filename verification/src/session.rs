use vstd::prelude::*;

use crate::text::{
    chars_to_string, concat3, decimal, digits_value, ends_with_seq, ends_with_str, eq_str,
    lemma_decimal, lit, or_default, parse_u32, parse_u32_exec, push_decimal, push_str,
    starts_with_seq, starts_with_str, str_to_chars, string_views, sub_chars,
};
use crate::tools::{ToolCallTracker, ToolCallView};

verus! {

// ───────────────────────── messages and sessions ─────────────────────────

/// A message of a conversation. Where the stored JSON lacks the role or the content, or
/// they are not strings, they are absent.
pub struct ChatMessage {
    pub role: Option<String>,
    pub content: Option<String>,
    pub tool_calls: Vec<ToolCallTracker>,
    pub tool_call_id: Option<String>,
}

/// What a message holds.
pub struct ChatMessageView {
    pub role: Option<Seq<char>>,
    pub content: Option<Seq<char>>,
    pub tool_calls: Seq<ToolCallView>,
    pub tool_call_id: Option<Seq<char>>,
}

impl View for ChatMessage {
    type V = ChatMessageView;

    open spec fn view(&self) -> ChatMessageView {
        ChatMessageView {
            role: self.role.deep_view(),
            content: self.content.deep_view(),
            tool_calls: Seq::new(self.tool_calls@.len(), |k: int| self.tool_calls@[k]@),
            tool_call_id: self.tool_call_id.deep_view(),
        }
    }
}

/// The views of a sequence of messages.
pub open spec fn message_views(ms: Seq<ChatMessage>) -> Seq<ChatMessageView> {
    Seq::new(ms.len(), |k: int| ms[k]@)
}

fn copy_opt(o: &Option<String>) -> (r: Option<String>)
    ensures
        r.deep_view() == o.deep_view(),
{
    match o {
        Some(s) => Some(s.clone()),
        None => None,
    }
}

impl ChatMessage {
    /// A copy of the message.
    pub fn duplicate(&self) -> (m: Self)
        ensures
            m@ == self@,
    {
        let mut calls: Vec<ToolCallTracker> = Vec::new();
        let n = self.tool_calls.len();
        let mut k: usize = 0;
        while k < n
            invariant
                n == self.tool_calls@.len(),
                k <= n,
                calls@.len() == k,
                forall|j: int| 0 <= j < k ==> #[trigger] calls@[j]@ == self.tool_calls@[j]@,
            decreases n - k,
        {
            calls.push(self.tool_calls[k].duplicate());
            k += 1;
        }
        let m = ChatMessage {
            role: copy_opt(&self.role),
            content: copy_opt(&self.content),
            tool_calls: calls,
            tool_call_id: copy_opt(&self.tool_call_id),
        };
        assert(m@.tool_calls =~= self@.tool_calls);
        m
    }

    /// A message of the given role with the given text.
    pub fn text(role: &str, content: String) -> (m: Self)
        ensures
            m@ == (ChatMessageView {
                role: Some(role@),
                content: Some(content@),
                tool_calls: Seq::empty(),
                tool_call_id: None,
            }),
            m.tool_calls@.len() == 0,
    {
        let m = ChatMessage {
            role: Some(lit(role)),
            content: Some(content),
            tool_calls: Vec::new(),
            tool_call_id: None,
        };
        assert(m@.tool_calls =~= Seq::<ToolCallView>::empty());
        m
    }
}

/// The conversation of one terminal window.
pub struct Session {
    pub messages: Vec<ChatMessage>,
}

impl Default for Session {
    fn default() -> (s: Self)
        ensures
            s.messages@.len() == 0,
    {
        Session { messages: Vec::new() }
    }
}

impl Session {
    /// Adds a message at the end of the conversation.
    pub fn push(&mut self, m: ChatMessage)
        ensures
            final(self).messages@ == old(self).messages@.push(m),
    {
        self.messages.push(m);
    }
}

// ───────────────────────── session files ─────────────────────────

/// The name of the session file of the terminal whose process id is `pid`.
pub open spec fn session_name(pid: nat) -> Seq<char> {
    "ai_session_"@ + decimal(pid) + ".json"@
}

/// A file name that a session file may have: `ai_session_…json`.
pub open spec fn is_session_name(name: Seq<char>) -> bool {
    starts_with_seq(name, "ai_session_"@) && ends_with_seq(name, ".json"@)
}

/// The process id that a session file's name carries, where it carries one.
pub open spec fn session_pid(name: Seq<char>) -> Option<u32> {
    if is_session_name(name) {
        parse_u32(name.subrange("ai_session_"@.len() as int, name.len() - ".json"@.len()))
    } else {
        None
    }
}

/// The name of the session file of the terminal whose process id is `pid`.
pub fn session_file_name(pid: u32) -> (s: String)
    ensures
        s@ == session_name(pid as nat),
{
    let mut v: Vec<char> = Vec::new();
    push_str(&mut v, "ai_session_");
    push_decimal(&mut v, pid as u64);
    push_str(&mut v, ".json");
    chars_to_string(&v)
}

/// Whether a file name is that of a session file: `ai_session_…json`.
pub fn is_session_file(name: &str) -> (b: bool)
    ensures
        b == is_session_name(name@),
{
    let v = str_to_chars(name);
    starts_with_str(&v, "ai_session_") && ends_with_str(&v, ".json")
}

proof fn lemma_session_name_long(name: Seq<char>)
    requires
        is_session_name(name),
    ensures
        name.len() >= 16,
{
    reveal_strlit("ai_session_");
    reveal_strlit(".json");
    if name.len() < 16 {
        let k = name.len() - 5;
        assert(name.skip(name.len() - 5)[0] == '.');
        assert(name[k] == '.');
        assert(name.take(11)[k] == name[k]);
    }
}

/// The process id that a session file's name carries, where it carries one.
pub fn session_file_pid(name: &str) -> (r: Option<u32>)
    ensures
        r == session_pid(name@),
{
    let v = str_to_chars(name);
    if !(starts_with_str(&v, "ai_session_") && ends_with_str(&v, ".json")) {
        return None;
    }
    proof {
        reveal_strlit("ai_session_");
        reveal_strlit(".json");
        lemma_session_name_long(v@);
    }
    let mid = sub_chars(&v, 11, v.len() - 5);
    parse_u32_exec(&mid)
}

/// The cleaner finds in the name of a session file the process id it was named for, and
/// takes it for a session file.
pub proof fn lemma_session_name_roundtrip(pid: u32)
    ensures
        is_session_name(session_name(pid as nat)),
        session_pid(session_name(pid as nat)) == Some(pid),
{
    reveal_strlit("ai_session_");
    reveal_strlit(".json");
    let d = decimal(pid as nat);
    let name = session_name(pid as nat);
    lemma_decimal(pid as nat);
    assert(name.take(11) =~= "ai_session_"@);
    assert(name.skip(name.len() - 5) =~= ".json"@);
    assert(name.subrange(11, name.len() - 5) =~= d);
}

// ───────────────────────── history ─────────────────────────

/// The role of a message, `unknown` where it has none.
pub open spec fn role_of(m: ChatMessage) -> Seq<char> {
    or_default(m.role.deep_view(), "unknown"@)
}

/// How `ai history` shows a message: user and assistant messages with text, labelled and
/// coloured; none for system and tool messages or empty ones.
pub open spec fn history_entry(m: ChatMessage) -> Option<Seq<char>> {
    let role = role_of(m);
    let content = or_default(m.content.deep_view(), Seq::empty());
    if role == "system"@ || role == "tool"@ || content.len() == 0 {
        None
    } else {
        let label = if role == "user"@ {
            "You"@
        } else if role == "assistant"@ {
            "AI"@
        } else {
            role
        };
        let color = if role == "user"@ {
            "\x1b[33m"@
        } else {
            "\x1b[36m"@
        };
        Some(color + "["@ + label + "]\x1b[0m "@ + content + "\n"@)
    }
}

/// The shown messages, in order.
pub open spec fn history_entries(ms: Seq<ChatMessage>) -> Seq<Seq<char>>
    decreases ms.len(),
{
    if ms.len() == 0 {
        Seq::empty()
    } else {
        let rest = history_entries(ms.drop_last());
        match history_entry(ms.last()) {
            Some(e) => rest.push(e),
            None => rest,
        }
    }
}

/// The lines that `ai history` prints before the session file's path.
pub open spec fn history_report(ms: Seq<ChatMessage>) -> Seq<Seq<char>> {
    if ms.len() == 0 {
        seq!["No history for this session.\n"@]
    } else {
        seq![Seq::<char>::empty()] + history_entries(ms)
    }
}

fn history_entry_exec(m: &ChatMessage) -> (r: Option<String>)
    ensures
        r.deep_view() == history_entry(*m),
{
    let role: Vec<char> = match &m.role {
        Some(r) => str_to_chars(r.as_str()),
        None => str_to_chars("unknown"),
    };
    let content: Vec<char> = match &m.content {
        Some(c) => str_to_chars(c.as_str()),
        None => Vec::new(),
    };
    if eq_str(&role, "system") || eq_str(&role, "tool") || content.len() == 0 {
        return None;
    }
    let is_user = eq_str(&role, "user");
    let mut v: Vec<char> = Vec::new();
    if is_user {
        push_str(&mut v, "\x1b[33m");
    } else {
        push_str(&mut v, "\x1b[36m");
    }
    push_str(&mut v, "[");
    if is_user {
        push_str(&mut v, "You");
    } else if eq_str(&role, "assistant") {
        push_str(&mut v, "AI");
    } else {
        crate::text::push_all(&mut v, &role);
    }
    push_str(&mut v, "]\x1b[0m ");
    crate::text::push_all(&mut v, &content);
    push_str(&mut v, "\n");
    Some(chars_to_string(&v))
}

/// The lines that `ai history` prints before the session file's path: a notice where the
/// session is empty, else a blank line and each shown message.
pub fn history_lines(messages: &Vec<ChatMessage>) -> (r: Vec<String>)
    ensures
        string_views(r@) == history_report(messages@),
{
    let mut r: Vec<String> = Vec::new();
    let n = messages.len();
    if n == 0 {
        r.push(lit("No history for this session.\n"));
        assert(string_views(r@) =~= history_report(messages@));
        return r;
    }
    r.push(String::new());
    let mut k: usize = 0;
    assert(messages@.take(0) =~= Seq::<ChatMessage>::empty());
    while k < n
        invariant
            n == messages@.len(),
            k <= n,
            string_views(r@) =~= seq![Seq::<char>::empty()] + history_entries(messages@.take(k as int)),
        decreases n - k,
    {
        let e = history_entry_exec(&messages[k]);
        assert(messages@.take(k + 1).drop_last() =~= messages@.take(k as int));
        match e {
            Some(s) => {
                let ghost prev = r@;
                r.push(s);
                assert(string_views(r@) =~= string_views(prev).push(s@));
            },
            None => {},
        }
        k += 1;
    }
    assert(messages@.take(n as int) =~= messages@);
    r
}


/// The line under the history naming the session file.
pub open spec fn session_file_text(path: Seq<char>) -> Seq<char> {
    "\x1b[2mSession file: "@ + path + "\x1b[0m \n"@
}

/// The line under the history naming the session file.
pub fn session_file_line(path: &str) -> (r: String)
    ensures
        r@ == session_file_text(path@),
{
    concat3("\x1b[2mSession file: ", path, "\x1b[0m \n")
}

/// What `ai clear` prints, depending on whether there was a session file to remove.
pub open spec fn clear_text(existed: bool) -> Seq<char> {
    if existed {
        "✓ Session history cleared."@
    } else {
        "No history to clear.\n"@
    }
}

/// What `ai clear` prints.
pub fn clear_message(existed: bool) -> (r: String)
    ensures
        r@ == clear_text(existed),
{
    if existed {
        lit("✓ Session history cleared.")
    } else {
        lit("No history to clear.\n")
    }
}

/// What `ai clean-all` prints after removing `count` session files.
pub open spec fn cleaned_text(count: nat) -> Seq<char> {
    "✓ Cleared "@ + decimal(count) + " session(s) across all terminals.\n"@
}

/// What `ai clean-all` prints after removing `count` session files.
pub fn cleaned_message(count: u64) -> (r: String)
    ensures
        r@ == cleaned_text(count as nat),
{
    let mut v: Vec<char> = Vec::new();
    push_str(&mut v, "✓ Cleared ");
    push_decimal(&mut v, count);
    push_str(&mut v, " session(s) across all terminals.\n");
    chars_to_string(&v)
}

} // verus!
