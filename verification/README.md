# codex_core_logic

The decision logic of an agent's tool handlers and request builders,
verified with Verus:

- building Chat Completions and Messages API requests from a conversation
  history (tool-call repair, media pruning, prompt-cache markers, reasoning
  replay);
- the dedicated file tools (`read_file`, `edit_file`, `write_file`) and their
  read receipts, the text-editor tool, and the file-mutation lock order;
- shell and unified-exec command planning, shell file-change snapshots,
  user shell commands, web search commands and settings, hook payloads,
  context-window accounting and repeated follow-up detection.

Layout:

- `src/` — the verified library. Each public function states its result in
  its `ensures`; properties that span several functions are public proof
  functions named `law_*`.
- `tests/` — tests run against the compiled library.
- `app/` — the unverified edge: serde forms of the tool arguments, and
  drivers that run the file tools, the text-editor tool and the shell
  snapshot on the local filesystem by calling the library between
  filesystem calls.

Calls into `sha2`, `url` and `serde_json` go through small trusted wrappers
whose doc comments say what is assumed of them. Token counting and cutting
a text to a token budget are the caller's, handed in as closures
(`token_budget::TokenBudget`); the library states what it does with them.
