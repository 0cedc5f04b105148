use vstd::prelude::*;

use crate::text::{
    answer, answer_exec, concat2, ends_with_seq, concat3, eq_str, opt_or, or_default, str_eq,
    chars_to_string, decimal, is_char_boundary_at, lit, push_all, push_str, str_to_chars,
    trim_exec, trim_seq, truncate_bytes, truncate_bytes_exec, utf8_len, utf8_len_upto,
    char_boundary_exec, lemma_utf8_concat,
};

verus! {

// ───────────────────────── tool calls ─────────────────────────

/// One tool call of the assistant, as it is put together from the reply.
pub struct ToolCallTracker {
    pub id: String,
    pub name: String,
    pub arguments: String,
}

/// What a tool call holds.
pub struct ToolCallView {
    pub id: Seq<char>,
    pub name: Seq<char>,
    pub arguments: Seq<char>,
}

impl View for ToolCallTracker {
    type V = ToolCallView;

    open spec fn view(&self) -> ToolCallView {
        ToolCallView { id: self.id@, name: self.name@, arguments: self.arguments@ }
    }
}

impl ToolCallTracker {
    /// A tracker with every field empty.
    pub fn new() -> (t: Self)
        ensures
            t.id@ == Seq::<char>::empty(),
            t.name@ == Seq::<char>::empty(),
            t.arguments@ == Seq::<char>::empty(),
    {
        ToolCallTracker { id: String::new(), name: String::new(), arguments: String::new() }
    }

    /// A copy of the tracker.
    pub fn duplicate(&self) -> (t: Self)
        ensures
            t.id@ == self.id@,
            t.name@ == self.name@,
            t.arguments@ == self.arguments@,
    {
        ToolCallTracker {
            id: self.id.clone(),
            name: self.name.clone(),
            arguments: self.arguments.clone(),
        }
    }
}

impl Default for ToolCallTracker {
    fn default() -> (t: Self)
        ensures
            t.id@ == Seq::<char>::empty(),
            t.name@ == Seq::<char>::empty(),
            t.arguments@ == Seq::<char>::empty(),
    {
        ToolCallTracker::new()
    }
}

// ───────────────────────── the tools offered to the model ─────────────────────────

/// A string parameter of a tool.
pub struct ToolParam {
    pub name: String,
    pub description: Option<String>,
}

/// A tool offered to the model: a function whose parameters are all strings.
pub struct ToolSpec {
    pub name: String,
    pub description: String,
    pub params: Vec<ToolParam>,
    pub required: Vec<String>,
}

/// The parameter `p` is named `name` and described by `desc`.
pub open spec fn param_is(p: ToolParam, name: Seq<char>, desc: Option<Seq<char>>) -> bool {
    p.name@ == name && p.description.deep_view() == desc
}

/// The tool `t` is named `name`, described by `desc`, and requires `required`.
pub open spec fn tool_is(t: ToolSpec, name: Seq<char>, desc: Seq<char>, required: Seq<Seq<char>>) -> bool {
    &&& t.name@ == name
    &&& t.description@ == desc
    &&& t.required@.len() == required.len()
    &&& forall|k: int| 0 <= k < required.len() ==> #[trigger] t.required@[k]@ == required[k]
}

fn param(name: &str, desc: Option<&str>) -> (p: ToolParam)
    ensures
        p.name@ == name@,
        p.description.deep_view() == (match desc {
            Some(d) => Some(d@),
            None => None::<Seq<char>>,
        }),
{
    ToolParam {
        name: lit(name),
        description: match desc {
            Some(d) => Some(lit(d)),
            None => None,
        },
    }
}

/// The four tools the assistant may call: `execute_cmd`, `read_file`, `list_dir` and
/// `write_file`.
pub fn get_tools() -> (tools: Vec<ToolSpec>)
    ensures
        tools@.len() == 4,
        tool_is(
            tools@[0],
            "execute_cmd"@,
            "Execute a terminal command. Use this to run scripts, tests, or system commands."@,
            seq!["command"@],
        ),
        tools@[0].params@.len() == 1,
        param_is(
            tools@[0].params@[0],
            "command"@,
            Some("The command to run, e.g., 'cargo check' or 'npm run build'"@),
        ),
        tool_is(tools@[1], "read_file"@, "Read the contents of a file."@, seq!["path"@]),
        tools@[1].params@.len() == 1,
        param_is(tools@[1].params@[0], "path"@, None),
        tool_is(tools@[2], "list_dir"@, "List files in a directory."@, seq!["path"@]),
        tools@[2].params@.len() == 1,
        param_is(
            tools@[2].params@[0],
            "path"@,
            Some("Path to the directory, e.g., '.' for current"@),
        ),
        tool_is(
            tools@[3],
            "write_file"@,
            "Write or overwrite a file with new content. Can be used for small modifications."@,
            seq!["path"@, "content"@],
        ),
        tools@[3].params@.len() == 2,
        param_is(tools@[3].params@[0], "path"@, None),
        param_is(
            tools@[3].params@[1],
            "content"@,
            Some("The full file content to write"@),
        ),
{
    let mut tools: Vec<ToolSpec> = Vec::new();
    tools.push(
        ToolSpec {
            name: lit("execute_cmd"),
            description: lit(
                "Execute a terminal command. Use this to run scripts, tests, or system commands.",
            ),
            params: vec![
                param(
                    "command",
                    Some("The command to run, e.g., 'cargo check' or 'npm run build'"),
                ),
            ],
            required: vec![lit("command")],
        },
    );
    tools.push(
        ToolSpec {
            name: lit("read_file"),
            description: lit("Read the contents of a file."),
            params: vec![param("path", None)],
            required: vec![lit("path")],
        },
    );
    tools.push(
        ToolSpec {
            name: lit("list_dir"),
            description: lit("List files in a directory."),
            params: vec![param("path", Some("Path to the directory, e.g., '.' for current"))],
            required: vec![lit("path")],
        },
    );
    tools.push(
        ToolSpec {
            name: lit("write_file"),
            description: lit(
                "Write or overwrite a file with new content. Can be used for small modifications.",
            ),
            params: vec![param("path", None), param("content", Some("The full file content to write"))],
            required: vec![lit("path"), lit("content")],
        },
    );
    tools
}

} // verus!

verus! {

// ───────────────────────── running a tool call ─────────────────────────

/// The string arguments of a tool call, as the call's JSON gives them (absent where a field
/// is missing or not a string).
pub struct ToolArgs {
    pub command: Option<String>,
    pub path: Option<String>,
    pub content: Option<String>,
}

pub struct ToolArgsView {
    pub command: Option<Seq<char>>,
    pub path: Option<Seq<char>>,
    pub content: Option<Seq<char>>,
}

impl View for ToolArgs {
    type V = ToolArgsView;

    open spec fn view(&self) -> ToolArgsView {
        ToolArgsView {
            command: self.command.deep_view(),
            path: self.path.deep_view(),
            content: self.content.deep_view(),
        }
    }
}

/// What a tool call does to the machine.
pub enum ToolOperation {
    RunCommand { command: String },
    ReadFile { path: String },
    ListDir { path: String },
    WriteFile { path: String, content: String },
}

pub enum ToolOperationView {
    RunCommand(Seq<char>),
    ReadFile(Seq<char>),
    ListDir(Seq<char>),
    WriteFile(Seq<char>, Seq<char>),
}

impl View for ToolOperation {
    type V = ToolOperationView;

    open spec fn view(&self) -> ToolOperationView {
        match self {
            ToolOperation::RunCommand { command } => ToolOperationView::RunCommand(command@),
            ToolOperation::ReadFile { path } => ToolOperationView::ReadFile(path@),
            ToolOperation::ListDir { path } => ToolOperationView::ListDir(path@),
            ToolOperation::WriteFile { path, content } => ToolOperationView::WriteFile(
                path@,
                content@,
            ),
        }
    }
}

/// How a tool call goes on: answered at once, performed after the user agrees (the prompt
/// asks), or performed after a notice.
pub enum ToolPlan {
    Reply { text: String },
    Confirm { prompt: String, operation: ToolOperation },
    Perform { notice: String, operation: ToolOperation },
}

pub enum ToolPlanView {
    Reply(Seq<char>),
    Confirm(Seq<char>, ToolOperationView),
    Perform(Seq<char>, ToolOperationView),
}

impl View for ToolPlan {
    type V = ToolPlanView;

    open spec fn view(&self) -> ToolPlanView {
        match self {
            ToolPlan::Reply { text } => ToolPlanView::Reply(text@),
            ToolPlan::Confirm { prompt, operation } => ToolPlanView::Confirm(prompt@, operation@),
            ToolPlan::Perform { notice, operation } => ToolPlanView::Perform(notice@, operation@),
        }
    }
}

/// What a call of the tool `name` comes to, given its parsed arguments or the parse error.
pub open spec fn tool_plan(name: Seq<char>, args: Result<ToolArgsView, Seq<char>>) -> ToolPlanView {
    match args {
        Err(e) => ToolPlanView::Reply("Tool argument parse error: "@ + e),
        Ok(a) => if name == "execute_cmd"@ {
            let cmd = or_default(a.command, ""@);
            ToolPlanView::Confirm(
                "\n\x1b[33m[Agent] Wants to run command:\x1b[0m "@ + cmd + "\nAllow? [Y/n]: "@,
                ToolOperationView::RunCommand(cmd),
            )
        } else if name == "read_file"@ {
            let p = or_default(a.path, ""@);
            ToolPlanView::Perform(
                "\x1b[2m[Agent] Reading file: "@ + p + "\x1b[0m"@,
                ToolOperationView::ReadFile(p),
            )
        } else if name == "list_dir"@ {
            let p = or_default(a.path, "."@);
            ToolPlanView::Perform(
                "\x1b[2m[Agent] Listing dir: "@ + p + "\x1b[0m"@,
                ToolOperationView::ListDir(p),
            )
        } else if name == "write_file"@ {
            let p = or_default(a.path, ""@);
            ToolPlanView::Confirm(
                "\n\x1b[33m[Agent] Wants to write to file:\x1b[0m "@ + p + "\nAllow? [Y/n]: "@,
                ToolOperationView::WriteFile(p, or_default(a.content, ""@)),
            )
        } else {
            ToolPlanView::Reply("Unknown tool: "@ + name)
        },
    }
}

/// Decides what a tool call does: the parse error or an unknown tool is answered at once,
/// a command or a write waits for the user's consent, a read or a listing goes ahead.
pub fn plan_tool(name: &str, args: Result<ToolArgs, String>) -> (plan: ToolPlan)
    ensures
        plan@ == tool_plan(
            name@,
            match args {
                Ok(a) => Ok(a@),
                Err(e) => Err(e@),
            },
        ),
{
    match args {
        Err(e) => ToolPlan::Reply { text: concat2("Tool argument parse error: ", e.as_str()) },
        Ok(a) => {
            if str_eq(name, "execute_cmd") {
                let cmd = opt_or(&a.command, "");
                let prompt = concat3(
                    "\n\x1b[33m[Agent] Wants to run command:\x1b[0m ",
                    cmd.as_str(),
                    "\nAllow? [Y/n]: ",
                );
                ToolPlan::Confirm { prompt, operation: ToolOperation::RunCommand { command: cmd } }
            } else if str_eq(name, "read_file") {
                let p = opt_or(&a.path, "");
                let notice = concat3("\x1b[2m[Agent] Reading file: ", p.as_str(), "\x1b[0m");
                ToolPlan::Perform { notice, operation: ToolOperation::ReadFile { path: p } }
            } else if str_eq(name, "list_dir") {
                let p = opt_or(&a.path, ".");
                let notice = concat3("\x1b[2m[Agent] Listing dir: ", p.as_str(), "\x1b[0m");
                ToolPlan::Perform { notice, operation: ToolOperation::ListDir { path: p } }
            } else if str_eq(name, "write_file") {
                let p = opt_or(&a.path, "");
                let c = opt_or(&a.content, "");
                let prompt = concat3(
                    "\n\x1b[33m[Agent] Wants to write to file:\x1b[0m ",
                    p.as_str(),
                    "\nAllow? [Y/n]: ",
                );
                ToolPlan::Confirm {
                    prompt,
                    operation: ToolOperation::WriteFile { path: p, content: c },
                }
            } else {
                ToolPlan::Reply { text: concat2("Unknown tool: ", name) }
            }
        },
    }
}

} // verus!

verus! {

/// The user turned a request down: the answer is `n` or `no`.
pub open spec fn is_denial(input: Seq<char>) -> bool {
    answer(input) == "n"@ || answer(input) == "no"@
}

/// What a refused operation answers the model, if the user's `input` refuses it.
pub open spec fn consent_reply(op: ToolOperationView, input: Seq<char>) -> Option<Seq<char>> {
    if is_denial(input) {
        match op {
            ToolOperationView::RunCommand(_) => Some("User denied permission to run the command."@),
            ToolOperationView::WriteFile(_, _) => Some("User denied permission to write the file."@),
            _ => None,
        }
    } else {
        None
    }
}

/// The user refuses exactly when the answer, trimmed and in lower case, is `n` or `no`; an
/// empty answer, `y` or `yes` never refuses, and a refused command or write is answered
/// with its refusal instead of being performed.
pub proof fn lemma_denial_answers(input: Seq<char>)
    ensures
        is_denial(input) <==> (answer(input) == "n"@ || answer(input) == "no"@),
        answer(input).len() == 0 || answer(input) == "y"@ || answer(input) == "yes"@ ==> !is_denial(
            input,
        ),
        is_denial(input) ==> consent_reply(ToolOperationView::RunCommand(Seq::empty()), input)
            == Some("User denied permission to run the command."@),
        is_denial(input) ==> consent_reply(
            ToolOperationView::WriteFile(Seq::empty(), Seq::empty()),
            input,
        ) == Some("User denied permission to write the file."@),
        !is_denial(input) ==> consent_reply(ToolOperationView::RunCommand(Seq::empty()), input) is None,
{
    reveal_strlit("n");
    reveal_strlit("no");
    reveal_strlit("y");
    reveal_strlit("yes");
    if answer(input) == "y"@ || answer(input) == "yes"@ {
        assert(answer(input)[0] == 'y');
    }
}

/// Whether the user's answer refuses the request.
pub fn denies(input: &str) -> (b: bool)
    ensures
        b == is_denial(input@),
{
    let a = answer_exec(input);
    eq_str(&a, "n") || eq_str(&a, "no")
}

/// The reply to the model when the user refuses `op`; none when the user agrees.
pub fn consent(op: &ToolOperation, input: &str) -> (r: Option<String>)
    ensures
        r.deep_view() == consent_reply(op@, input@),
{
    if denies(input) {
        match op {
            ToolOperation::RunCommand { .. } => Some(lit("User denied permission to run the command.")),
            ToolOperation::WriteFile { .. } => Some(lit("User denied permission to write the file.")),
            _ => None,
        }
    } else {
        None
    }
}

/// Reading a file and listing a directory go ahead at once; running a command and writing a
/// file wait for the user's answer, and an answer of `n` or `no` stops them with a reply to
/// the model.
pub proof fn lemma_destructive_tools_ask(name: Seq<char>, a: ToolArgsView, input: Seq<char>)
    ensures
        name == "read_file"@ || name == "list_dir"@ ==> tool_plan(name, Ok(a)) is Perform,
        name == "execute_cmd"@ || name == "write_file"@ ==> tool_plan(name, Ok(a)) is Confirm,
        tool_plan(name, Ok(a)) matches ToolPlanView::Confirm(_, op) ==> (is_denial(input)
            ==> consent_reply(op, input) is Some),
{
    reveal_strlit("execute_cmd");
    reveal_strlit("read_file");
    reveal_strlit("list_dir");
    reveal_strlit("write_file");
    // the four names differ in their first letters
    assert("execute_cmd"@[0] == 'e' && "read_file"@[0] == 'r');
    assert("list_dir"@[0] == 'l' && "write_file"@[0] == 'w');
}

// ───────────────────────── what a tool call answers ─────────────────────────

/// An entry of a listed directory.
pub struct DirEntryInfo {
    pub name: String,
    pub is_dir: bool,
}

/// What performing an operation came to.
pub enum ToolOutcome {
    Command { status: String, stdout: String, stderr: String },
    SpawnFailed { error: String },
    FileRead { content: String },
    ReadFailed { error: String },
    DirListed { entries: Vec<DirEntryInfo> },
    ListFailed { error: String },
    Written { path: String },
    WriteFailed { error: String },
}

/// The longest report of a command, in bytes.
pub const MAX_REPORT_BYTES: usize = 10000;

/// The report of a finished command, before it is cut down.
pub open spec fn command_report_full(status: Seq<char>, stdout: Seq<char>, stderr: Seq<char>) -> Seq<
    char,
> {
    "Exit status: "@ + status + "\n"@ + (if stdout.len() > 0 {
        "Stdout:\n"@ + stdout + "\n"@
    } else {
        Seq::empty()
    }) + (if stderr.len() > 0 {
        "Stderr:\n"@ + stderr + "\n"@
    } else {
        Seq::empty()
    })
}

/// The report of a finished command: past 10000 bytes it is cut there and marked.
pub open spec fn command_report(status: Seq<char>, stdout: Seq<char>, stderr: Seq<char>) -> Seq<char> {
    let full = command_report_full(status, stdout, stderr);
    if utf8_len(full) > 10000 {
        truncate_bytes(full, 10000) + "\n...[output truncated]..."@
    } else {
        full
    }
}

/// The lines of a directory listing: each name, `/` after a directory.
pub open spec fn dir_listing(entries: Seq<DirEntryInfo>) -> Seq<char>
    decreases entries.len(),
{
    if entries.len() == 0 {
        Seq::empty()
    } else {
        let e = entries.last();
        dir_listing(entries.drop_last()) + e.name@ + (if e.is_dir {
            "/"@
        } else {
            Seq::empty()
        }) + "\n"@
    }
}

/// What the model is told of an outcome.
pub open spec fn tool_result_text(o: &ToolOutcome) -> Seq<char> {
    match o {
        ToolOutcome::Command { status, stdout, stderr } => command_report(status@, stdout@, stderr@),
        ToolOutcome::SpawnFailed { error } => "Failed to spawn command: "@ + error@,
        ToolOutcome::FileRead { content } => content@,
        ToolOutcome::ReadFailed { error } => "Failed to read file: "@ + error@,
        ToolOutcome::DirListed { entries } => if entries@.len() == 0 {
            "[Empty directory]"@
        } else {
            dir_listing(entries@)
        },
        ToolOutcome::ListFailed { error } => "Failed to list dir: "@ + error@,
        ToolOutcome::Written { path } => "Successfully wrote to "@ + path@,
        ToolOutcome::WriteFailed { error } => "Failed to write file: "@ + error@,
    }
}

/// A report of a command can be cut at 10000 bytes without splitting a character.
pub open spec fn outcome_can_be_cut(o: &ToolOutcome) -> bool {
    match o {
        ToolOutcome::Command { status, stdout, stderr } => {
            let full = command_report_full(status@, stdout@, stderr@);
            utf8_len(full) > 10000 ==> is_char_boundary_at(full, 10000)
        },
        _ => true,
    }
}

fn command_report_full_exec(status: &String, stdout: &String, stderr: &String) -> (v: Vec<char>)
    ensures
        v@ == command_report_full(status@, stdout@, stderr@),
{
    let mut v: Vec<char> = Vec::new();
    push_str(&mut v, "Exit status: ");
    push_str(&mut v, status.as_str());
    push_str(&mut v, "\n");
    if !stdout.as_str().is_empty() {
        push_str(&mut v, "Stdout:\n");
        push_str(&mut v, stdout.as_str());
        push_str(&mut v, "\n");
    }
    if !stderr.as_str().is_empty() {
        push_str(&mut v, "Stderr:\n");
        push_str(&mut v, stderr.as_str());
        push_str(&mut v, "\n");
    }
    assert(v@ =~= command_report_full(status@, stdout@, stderr@));
    v
}

fn command_report_exec(status: &String, stdout: &String, stderr: &String) -> (r: String)
    requires
        ({
            let full = command_report_full(status@, stdout@, stderr@);
            utf8_len(full) > 10000 ==> is_char_boundary_at(full, 10000)
        }),
    ensures
        r@ == command_report(status@, stdout@, stderr@),
{
    let v = command_report_full_exec(status, stdout, stderr);
    if utf8_len_upto(&v, MAX_REPORT_BYTES) > MAX_REPORT_BYTES {
        let mut cut = truncate_bytes_exec(&v, MAX_REPORT_BYTES);
        push_str(&mut cut, "\n...[output truncated]...");
        chars_to_string(&cut)
    } else {
        chars_to_string(&v)
    }
}

/// The report of a command opens with its exit status, has a `Stdout:` section exactly when
/// it printed to stdout and a `Stderr:` section exactly when it printed to stderr, the two
/// independent of each other; a report that fits in 10000 bytes is handed to the model
/// whole.
pub proof fn lemma_command_report_sections(status: String, stdout: String, stderr: String)
    ensures
        ({
            let o = ToolOutcome::Command { status: status, stdout: stdout, stderr: stderr };
            let out_part = if stdout@.len() > 0 {
                "Stdout:\n"@ + stdout@ + "\n"@
            } else {
                Seq::empty()
            };
            let err_part = if stderr@.len() > 0 {
                "Stderr:\n"@ + stderr@ + "\n"@
            } else {
                Seq::empty()
            };
            let whole = "Exit status: "@ + status@ + "\n"@ + out_part + err_part;
            &&& command_report_full(status@, stdout@, stderr@) == whole
            &&& stdout@.len() > 0 && stderr@.len() > 0 ==> whole == "Exit status: "@ + status@
                + "\nStdout:\n"@ + stdout@ + "\n"@ + "Stderr:\n"@ + stderr@ + "\n"@
            &&& stderr@.len() > 0 ==> ends_with_seq(whole, "Stderr:\n"@ + stderr@ + "\n"@)
            &&& utf8_len(whole) <= 10000 ==> tool_result_text(&o) == whole
        }),
{
    let out_part = if stdout@.len() > 0 {
        "Stdout:\n"@ + stdout@ + "\n"@
    } else {
        Seq::empty()
    };
    let err_part = if stderr@.len() > 0 {
        "Stderr:\n"@ + stderr@ + "\n"@
    } else {
        Seq::empty()
    };
    let head = "Exit status: "@ + status@ + "\n"@ + out_part;
    let whole = head + err_part;
    reveal_strlit("\nStdout:\n");
    reveal_strlit("\n");
    reveal_strlit("Stdout:\n");
    if stdout@.len() > 0 && stderr@.len() > 0 {
        assert(whole =~= "Exit status: "@ + status@ + "\nStdout:\n"@ + stdout@ + "\n"@ + "Stderr:\n"@
            + stderr@ + "\n"@);
    }
    if stderr@.len() > 0 {
        assert(whole.skip(whole.len() - err_part.len()) =~= err_part);
    }
}

/// The report of a command takes at most 10000 bytes besides the mark of a cut.
pub proof fn lemma_command_report_bounded(status: Seq<char>, stdout: Seq<char>, stderr: Seq<char>)
    requires
        ({
            let full = command_report_full(status, stdout, stderr);
            utf8_len(full) > 10000 ==> is_char_boundary_at(full, 10000)
        }),
    ensures
        utf8_len(command_report(status, stdout, stderr)) <= 10000 + utf8_len(
            "\n...[output truncated]..."@,
        ),
{
    let full = command_report_full(status, stdout, stderr);
    if utf8_len(full) > 10000 {
        let k = choose|k: int| 0 <= k <= full.len() && utf8_len(#[trigger] full.take(k)) == 10000;
        lemma_utf8_concat(truncate_bytes(full, 10000), "\n...[output truncated]..."@);
    }
}

/// Whether the report of an outcome can be cut where it is too long: the cut must fall
/// between two characters.
pub fn report_can_be_cut(outcome: &ToolOutcome) -> (b: bool)
    ensures
        b == outcome_can_be_cut(outcome),
{
    match outcome {
        ToolOutcome::Command { status, stdout, stderr } => {
            let v = command_report_full_exec(status, stdout, stderr);
            if utf8_len_upto(&v, MAX_REPORT_BYTES) > MAX_REPORT_BYTES {
                char_boundary_exec(&v, MAX_REPORT_BYTES)
            } else {
                true
            }
        },
        _ => true,
    }
}

fn dir_listing_exec(entries: &Vec<DirEntryInfo>) -> (r: Vec<char>)
    ensures
        r@ == dir_listing(entries@),
{
    let mut v: Vec<char> = Vec::new();
    let n = entries.len();
    let mut k: usize = 0;
    assert(entries@.take(0) =~= Seq::<DirEntryInfo>::empty());
    while k < n
        invariant
            n == entries@.len(),
            k <= n,
            v@ == dir_listing(entries@.take(k as int)),
        decreases n - k,
    {
        let e = &entries[k];
        push_str(&mut v, e.name.as_str());
        if e.is_dir {
            push_str(&mut v, "/");
        }
        push_str(&mut v, "\n");
        assert(entries@.take(k + 1).drop_last() =~= entries@.take(k as int));
        k += 1;
        assert(v@ =~= dir_listing(entries@.take(k as int)));
    }
    assert(entries@.take(n as int) =~= entries@);
    v
}

/// What the model is told of the outcome of a tool call.
pub fn tool_result(outcome: &ToolOutcome) -> (r: String)
    requires
        outcome_can_be_cut(outcome),
    ensures
        r@ == tool_result_text(outcome),
{
    match outcome {
        ToolOutcome::Command { status, stdout, stderr } => command_report_exec(status, stdout, stderr),
        ToolOutcome::SpawnFailed { error } => concat2("Failed to spawn command: ", error.as_str()),
        ToolOutcome::FileRead { content } => content.clone(),
        ToolOutcome::ReadFailed { error } => concat2("Failed to read file: ", error.as_str()),
        ToolOutcome::DirListed { entries } => {
            if entries.len() == 0 {
                lit("[Empty directory]")
            } else {
                let v = dir_listing_exec(entries);
                chars_to_string(&v)
            }
        },
        ToolOutcome::ListFailed { error } => concat2("Failed to list dir: ", error.as_str()),
        ToolOutcome::Written { path } => concat2("Successfully wrote to ", path.as_str()),
        ToolOutcome::WriteFailed { error } => concat2("Failed to write file: ", error.as_str()),
    }
}

} // verus!
