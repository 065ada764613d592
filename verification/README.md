# mcp-sync

Keeps the MCP server definitions of several AI coding clients (Zed, VSCode,
Antigravity, OpenCode, and Codex) in step with one canonical JSON file, while
each client keeps its own on/off state for a server and the servers it alone
knows about.

## Layout

- `src/` — the library, written in Verus and verified:
  - `config.rs`: the canonical configuration and how it is read out of JSON;
    where the canonical file is looked for.
  - `json.rs`: JSON values and their mathematical view.
  - `json_text.rs`: JSON text read and pretty-printed through `serde_json`,
    and the normal form (sorted objects) that `serde_json` keeps values in.
  - `jsonc.rs`: locating Zed's `context_servers` block in JSONC text and
    turning JSONC into JSON.
  - `targets/`: one module per client (`zed`, `vscode`, `antigravity`,
    `opencode`, `codex`), the shared merge rules and the run over all
    clients (`mod.rs`), the view of a `toml_edit` document (`toml_doc.rs`),
    and the cross-run properties (`laws.rs`).
  - `cli.rs`, `logger.rs`, `watcher.rs`: command-line options, log records,
    and the watch-mode debounce.
- `app/` — the program around the library: file access, the clock, the file
  watcher and `main`.
- `tests/` — tests of the library.
