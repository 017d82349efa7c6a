# claude_history

The core of a browser for the transcripts of assistant sessions, written in Verus: what it decides
is stated in contracts and proved.

- `src/agent`: the line protocol in which transcripts are handed to agents. Reads and outlines are
  spelled out exactly, with what is left out where a budget is too small.
- `src/history`: finding, ordering, caching and loading sessions, finding empty transcripts, and
  what a load in the background tells.
- `src/tui/app`: what each key does to the state of the terminal interface.
- `src/tui/viewer`: the summaries of tool calls.
- `src/semantic`: the prompts under which texts are embedded.
- `src/json.rs`, `src/text.rs`, `src/error.rs` and the entries of the log: what the others share.

Properties that span functions stand as proof functions whose names start with `law_`.

The functions of `serde_json` and of the standard library that are believed rather than proved are
declared in `src/json.rs`, `src/text.rs` and `src/tui/viewer/activity.rs`, each with what is claimed
of it.

`app/` is ordinary Rust around the library: the terminal, the file system, threads, the clipboard
and the embedding model. `tests/` runs the library.
