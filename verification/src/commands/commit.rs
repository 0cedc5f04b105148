use vstd::prelude::*;

use crate::session::{ChatMessage, ChatMessageView};
use crate::text::{
    answer, answer_exec, char_boundary_exec, chars_to_string, lemma_utf8_concat, eq_str, is_char_boundary_at, lit, push_str,
    str_to_chars, trim_exec, trim_seq, truncate_bytes, truncate_bytes_exec, utf8_len,
    utf8_len_upto,
};

verus! {

/// The instructions for writing a commit message.
pub const COMMIT_PROMPT: &'static str = "You are an expert developer. Read the following git diff and write a concise, sensible commit message using the Conventional Commits format (e.g., feat:, fix:, refactor:, chore:). Do not include any other text, markdown blocks, quotes, or explanation. ONLY output the commit message itself.";

/// The longest diff sent to the model, in bytes.
pub const MAX_DIFF_BYTES: usize = 15000;

/// The diff to write a message for: the staged changes, or else the unstaged ones (then
/// committed with `-a`); none where there are no changes.
pub open spec fn diff_choice(staged: Seq<char>, unstaged: Seq<char>) -> Option<(Seq<char>, bool)> {
    if trim_seq(staged).len() > 0 {
        Some((staged, false))
    } else if trim_seq(unstaged).len() > 0 {
        Some((unstaged, true))
    } else {
        None
    }
}

/// Whether a diff holds no changes.
pub fn is_blank(diff: &str) -> (b: bool)
    ensures
        b == (trim_seq(diff@).len() == 0),
{
    let v = str_to_chars(diff);
    let t = trim_exec(&v);
    t.len() == 0
}

/// The diff to write a message for, and whether to commit with `-a`.
pub fn pick_diff(staged: String, unstaged: String) -> (r: Option<(String, bool)>)
    ensures
        match r {
            Some((d, all)) => diff_choice(staged@, unstaged@) == Some((d@, all)),
            None => diff_choice(staged@, unstaged@) is None,
        },
{
    if !is_blank(staged.as_str()) {
        Some((staged, false))
    } else if !is_blank(unstaged.as_str()) {
        Some((unstaged, true))
    } else {
        None
    }
}

/// The diff as sent: past 15000 bytes it is cut there and marked.
pub open spec fn sent_diff(diff: Seq<char>) -> Seq<char> {
    if utf8_len(diff) > 15000 {
        truncate_bytes(diff, 15000) + "\n...[diff truncated]..."@
    } else {
        diff
    }
}

/// The diff sent to the model takes at most 15000 bytes besides the mark of a cut, and a diff
/// of at most 15000 bytes is sent whole.
pub proof fn lemma_sent_diff_bounded(diff: Seq<char>)
    requires
        utf8_len(diff) > 15000 ==> is_char_boundary_at(diff, 15000),
    ensures
        utf8_len(sent_diff(diff)) <= 15000 + utf8_len("\n...[diff truncated]..."@),
        utf8_len(diff) <= 15000 ==> sent_diff(diff) == diff,
{
    if utf8_len(diff) > 15000 {
        let k = choose|k: int| 0 <= k <= diff.len() && utf8_len(#[trigger] diff.take(k)) == 15000;
        lemma_utf8_concat(truncate_bytes(diff, 15000), "\n...[diff truncated]..."@);
    }
}

/// Whether a diff too long to send whole can be cut at 15000 bytes: the cut must fall
/// between two characters.
pub fn diff_can_be_cut(diff: &str) -> (b: bool)
    ensures
        b == (utf8_len(diff@) > 15000 ==> is_char_boundary_at(diff@, 15000)),
{
    let v = str_to_chars(diff);
    if utf8_len_upto(&v, MAX_DIFF_BYTES) > MAX_DIFF_BYTES {
        char_boundary_exec(&v, MAX_DIFF_BYTES)
    } else {
        true
    }
}

/// The diff as sent to the model.
pub fn prepare_diff(diff: &str) -> (r: String)
    requires
        utf8_len(diff@) > 15000 ==> is_char_boundary_at(diff@, 15000),
    ensures
        r@ == sent_diff(diff@),
{
    let v = str_to_chars(diff);
    if utf8_len_upto(&v, MAX_DIFF_BYTES) > MAX_DIFF_BYTES {
        let mut cut = truncate_bytes_exec(&v, MAX_DIFF_BYTES);
        push_str(&mut cut, "\n...[diff truncated]...");
        chars_to_string(&cut)
    } else {
        lit(diff)
    }
}

/// The request for a commit message: the instructions, then the diff.
pub fn commit_messages(diff: String) -> (r: Vec<ChatMessage>)
    ensures
        r@.len() == 2,
        r@[0]@ == (ChatMessageView {
            role: Some("system"@),
            content: Some(COMMIT_PROMPT@),
            tool_calls: Seq::empty(),
            tool_call_id: None,
        }),
        r@[1]@ == (ChatMessageView {
            role: Some("user"@),
            content: Some(diff@),
            tool_calls: Seq::empty(),
            tool_call_id: None,
        }),
{
    let mut r: Vec<ChatMessage> = Vec::new();
    r.push(ChatMessage::text("system", lit(COMMIT_PROMPT)));
    r.push(ChatMessage::text("user", diff));
    r
}

/// The user agrees to commit: the answer is `y`, `yes`, or nothing.
pub open spec fn is_consent(input: Seq<char>) -> bool {
    answer(input) == "y"@ || answer(input) == "yes"@ || answer(input).len() == 0
}

/// The user agrees to commit exactly when the answer, trimmed and in lower case, is `y`,
/// `yes` or nothing; an answer that refuses a tool call (`n`, `no`) never agrees to commit.
pub proof fn lemma_consent_answers(input: Seq<char>)
    ensures
        is_consent(input) <==> (answer(input) == "y"@ || answer(input) == "yes"@ || answer(
            input,
        ).len() == 0),
        crate::tools::is_denial(input) ==> !is_consent(input),
{
    reveal_strlit("y");
    reveal_strlit("yes");
    reveal_strlit("n");
    reveal_strlit("no");
    if crate::tools::is_denial(input) {
        assert(answer(input)[0] == 'n');
    }
}

/// Whether the user agrees to commit.
pub fn commit_confirmed(input: &str) -> (b: bool)
    ensures
        b == is_consent(input@),
{
    let a = answer_exec(input);
    eq_str(&a, "y") || eq_str(&a, "yes") || a.len() == 0
}

/// The arguments of `git` that commit with the message: `commit [-a] -m <message>`.
pub fn commit_args(all: bool, message: &str) -> (r: Vec<String>)
    ensures
        all ==> r@.len() == 4 && r@[0]@ == "commit"@ && r@[1]@ == "-a"@ && r@[2]@ == "-m"@ && r@[3]@
            == message@,
        !all ==> r@.len() == 3 && r@[0]@ == "commit"@ && r@[1]@ == "-m"@ && r@[2]@ == message@,
{
    let mut r: Vec<String> = Vec::new();
    r.push(lit("commit"));
    if all {
        r.push(lit("-a"));
    }
    r.push(lit("-m"));
    r.push(lit(message));
    r
}

} // verus!
