use vstd::prelude::*;

use crate::agent::user_view;
use crate::session::{message_views, ChatMessage, Session};
use crate::text::{chars_to_string, join_seq, join_words, push_str, string_views};

verus! {

// ───────────────────────── `ai rec`: a command and its output ─────────────────────────

/// The command line that `ai rec` runs: its words joined by spaces; none without words.
pub open spec fn rec_command_text(args: Seq<Seq<char>>) -> Option<Seq<char>> {
    if args.len() == 0 {
        None
    } else {
        Some(join_seq(args, " "@))
    }
}

/// The command line that `ai rec` runs.
pub fn rec_command(args: &Vec<String>) -> (r: Option<String>)
    ensures
        r.deep_view() == rec_command_text(string_views(args@)),
{
    if args.len() == 0 {
        None
    } else {
        Some(join_words(args))
    }
}

/// The line announcing the command.
pub open spec fn running_text(cmd: Seq<char>) -> Seq<char> {
    "\x1b[2m[ai rec] Running: "@ + cmd + "\x1b[0m\n"@
}

/// The line announcing the command.
pub fn running_line(cmd: &str) -> (r: String)
    ensures
        r@ == running_text(cmd@),
{
    let mut v: Vec<char> = Vec::new();
    push_str(&mut v, "\x1b[2m[ai rec] Running: ");
    push_str(&mut v, cmd);
    push_str(&mut v, "\x1b[0m\n");
    chars_to_string(&v)
}

/// The pieces of output, one after the other.
pub open spec fn joined_output(chunks: Seq<Seq<char>>) -> Seq<char>
    decreases chunks.len(),
{
    if chunks.len() == 0 {
        Seq::empty()
    } else {
        joined_output(chunks.drop_last()) + chunks.last()
    }
}

/// The output of the command, gathered from the pieces in the order they came.
pub fn gather_output(chunks: &Vec<String>) -> (r: String)
    ensures
        r@ == joined_output(string_views(chunks@)),
{
    let ghost cs = string_views(chunks@);
    let mut v: Vec<char> = Vec::new();
    let n = chunks.len();
    let mut k: usize = 0;
    assert(cs.take(0) =~= Seq::<Seq<char>>::empty());
    while k < n
        invariant
            n == chunks@.len(),
            cs == string_views(chunks@),
            k <= n,
            v@ == joined_output(cs.take(k as int)),
        decreases n - k,
    {
        push_str(&mut v, chunks[k].as_str());
        assert(cs.take(k + 1).drop_last() =~= cs.take(k as int));
        k += 1;
    }
    assert(cs.take(n as int) =~= cs);
    chars_to_string(&v)
}

/// What the session learns of a command that ran: the command, its exit status and its
/// output.
pub open spec fn ran_context(cmd: Seq<char>, status: Seq<char>, output: Seq<char>) -> Seq<char> {
    "User ran command: `"@ + cmd + "`\nExit status: "@ + status + "\nOutput:\n```\n"@ + output
        + "\n```"@
}

/// What the session learns of a command that ran.
pub fn rec_context(cmd: &str, status: &str, output: &str) -> (r: String)
    ensures
        r@ == ran_context(cmd@, status@, output@),
{
    let mut v: Vec<char> = Vec::new();
    push_str(&mut v, "User ran command: `");
    push_str(&mut v, cmd);
    push_str(&mut v, "`\nExit status: ");
    push_str(&mut v, status);
    push_str(&mut v, "\nOutput:\n```\n");
    push_str(&mut v, output);
    push_str(&mut v, "\n```");
    chars_to_string(&v)
}

/// The error shown when the command could not be started.
pub open spec fn spawn_error_text(cmd: Seq<char>, err: Seq<char>) -> Seq<char> {
    "Failed to run command '"@ + cmd + "': "@ + err
}

/// The error shown when the command could not be started.
pub fn spawn_error(cmd: &str, err: &str) -> (r: String)
    ensures
        r@ == spawn_error_text(cmd@, err@),
{
    let mut v: Vec<char> = Vec::new();
    push_str(&mut v, "Failed to run command '");
    push_str(&mut v, cmd);
    push_str(&mut v, "': ");
    push_str(&mut v, err);
    chars_to_string(&v)
}

/// What the session learns of a command that could not be started.
pub open spec fn failed_context(cmd: Seq<char>, err_msg: Seq<char>) -> Seq<char> {
    "User attempted to run command: `"@ + cmd + "`\nBut it failed to spawn:\n"@ + err_msg
}

/// What the session learns of a command that could not be started.
pub fn spawn_failure_context(cmd: &str, err_msg: &str) -> (r: String)
    ensures
        r@ == failed_context(cmd@, err_msg@),
{
    let mut v: Vec<char> = Vec::new();
    push_str(&mut v, "User attempted to run command: `");
    push_str(&mut v, cmd);
    push_str(&mut v, "`\nBut it failed to spawn:\n");
    push_str(&mut v, err_msg);
    chars_to_string(&v)
}

/// Adds what happened to the session, as a message of the user's.
pub fn record_context(session: &mut Session, context: String)
    ensures
        message_views(final(session).messages@) == message_views(old(session).messages@).push(
            user_view(context@),
        ),
{
    let ghost before = message_views(session.messages@);
    session.push(ChatMessage::text("user", context));
    assert(message_views(session.messages@) =~= before.push(user_view(context@)));
}

} // verus!
