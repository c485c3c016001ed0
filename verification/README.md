# crown

A coding agent's core and terminal client: a daemon that talks to an
OpenAI-compatible model, runs file, search and shell tools for it, speaks
JSON-RPC to its clients and to MCP servers, and a TUI that shows the
conversation.

## Layout

- `src/` is the library, written in Verus. Every function there carries a
  contract and is proved against it. It holds the logic: glob and ignore
  rules, reading, writing, editing and listing files, searching, diffs,
  the SSE parser, the agent's turn steps, request and response handling
  for the model API, JSON-RPC and MCP messages, the client's state, the
  Markdown renderer and the layout of the terminal panels. Calls into
  `regex`, `similar`, `textwrap`, `unicode-width`, `pulldown-cmark`,
  `syntect`, `two-face` and `serde_json` go through small trusted wrappers
  whose doc comments say what is assumed of them.
- Laws: public proof functions in `src/` named `law_*` state properties that
  hold across calls (for example that a lone `*` matches every name, that
  three reads in a row of an unchanged file give the plain text, then the
  "already read" note, then the "duplicate read" note, or that reloading a
  configuration adds and overwrites servers but never removes one).
- `tests/` runs the library on concrete values.
- `app/` is the program around the library: the daemon's socket and HTTP
  plumbing, process spawning, file system access and the terminal loop.
  It hands the library plain values and acts on what it returns.
