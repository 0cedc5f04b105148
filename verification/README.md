# ai_cli

The verified core of `ai`, a terminal assistant for Groq's chat models: it answers
questions in the terminal, runs tools (commands, file reads and writes, directory
listings) on the model's request, keeps a conversation per terminal window, records
command output, writes commit messages, and renders Markdown with ANSI styles.

- `src/` is the library, verified with Verus: Markdown rendering (`markdown`, `markdown::layout`,
  `markdown::block`), tool calls and their reports (`tools`), the conversation and the
  assembly of streamed replies (`agent`), sessions and history (`session`), settings
  (`config`), the command line (`cli`) and the subcommands' decisions and messages
  (`commands::*`). Text helpers with their specifications are in `text`.
- `app/` is the program around it: argument parsing with clap, the settings and session
  files, the HTTP and event-stream requests, processes, prompts and printing.
- `tests/` exercises the library on concrete inputs.
