# nvimglsl

The editing core of a Neovim-protocol host, written in Verus: every function
in `src/` carries a `requires`/`ensures` contract that Verus proves.

## Layout

- `src/editcore/` — text storage with undo, buffers, key notation and key
  mappings, motions, operators, the `:` command line, windows and tabs, VCS
  signs and line diffs. `Editor::feed` states what each key does as a relation
  over the editor's state.
- `src/proto/` — the msgpack-RPC surface (`rpc_call`), highlight groups, the
  grid a UI is sent (`GridPainter`, which sends only rows that changed), what
  each window draws, and the VCS refresh step function.
- `src/lsp/` — JSON-RPC framing, language-server registry and the session's
  step function for diagnostics, completion, hover and definitions.
- `src/json.rs` — the JSON model the library reads, with `serde_json` behind
  a few trusted wrappers.
- `src/grep.rs`, `src/notes.rs`, `src/picker.rs`, `src/ignore.rs`,
  `src/git.rs`, `src/luaconf.rs`, `src/root_ui/` — project search, notes
  and links, the fuzzy picker, ignore rules, git output, the Lua settings a
  configuration sets, and the text roles of the root screen.
- `tests/` — ordinary Rust tests run against the compiled library.
- `app/` — the program around the library: process I/O, the git and search
  tools, and the language-server pipe. It hands the library plain values and
  acts on what comes back.

## Trusted items

The functions marked `#[verifier::external_body]` each make one call into
`serde_json` or `std` (UTF-8 decoding, character classes, case mapping, path
prefixes); their doc comments say what their contracts claim of that call.
