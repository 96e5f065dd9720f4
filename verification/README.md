# helix_agent

The decisions behind an editor's agent panel, git views and fuzzy picker, written in Rust and
verified with Verus.

- `src/git` reads what git prints: status, log, blame, stashes and line counts. It also holds the
  arguments of each git command and what its exit means.
- `src/opencode` holds the requests to the OpenCode server, what its answers mean, its event stream
  and the steps of starting it.
- `src/ui` holds the views: the chat with the agent, the review of an edit, blame, and the picker
  with its previews. A view answers keys and gives a list of drawing steps.
- `src/text.rs`, `src/lines.rs`, `src/number.rs` and `src/bytes.rs` are what these are built from.

Contracts speak of texts as sequences of characters and of views as plain values. Facts that span
several functions are proof functions whose names start with `law_`.

Calls into other crates stand in small functions marked `external_body`. What each of them claims is
said above it.

`app` is the shell around the library: processes, files, HTTP and the screen. `tests` runs the
library with the real crates linked.
