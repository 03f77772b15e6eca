# codex-notify-core

CodexNotify sends Codex hook events (finished turns, permission requests,
requests for input) to iPhone and Apple Watch through Bark. This crate is its
core, written in Verus: every public function in `src/` carries a contract
that Verus proves, and the properties the library promises stand there as
proof functions.

- `src/notification.rs` — hook events, project scope, quiet hours, message
  bodies, redaction, the notification built for an event.
- `src/store.rs` — the delivery queue: deduplication, claiming due events,
  backoff after failures, retries, history.
- `src/hooks.rs`, `src/reinstall.rs` — Codex's `hooks.json`: installing and
  removing this application's handlers without touching other hooks, and
  judging their trust state from `config.toml`.
- `src/bark.rs` — Bark payloads, endpoints, AES-CBC encryption, requests and
  the classification of Bark's answers.
- `src/settings.rs`, `src/paths.rs`, `src/cleanup.rs`, `src/uninstall.rs` —
  settings and their validation, storage locations, and what moving or
  uninstalling removes.
- `src/cli.rs`, `src/desktop.rs`, `src/hook_runtime.rs`, `src/dispatcher.rs`
  — the decisions of the command line, the desktop application, the hook
  process and delivery.
- `src/hook_input.rs` — reading a hook event from the JSON Codex sends.
- `src/json.rs`, `src/text.rs`, `src/digest.rs`, `src/security.rs`,
  `src/error.rs` — JSON values, text, SHA-256, the credential store, errors.

`app/` is the command-line program around the library: files, SQLite, HTTP,
logging and the hook protocol on standard input and output. The desktop
application's shell (Tauri windows, tray, autostart, starting the hook
process) is not part of this repository; its decisions are in
`src/desktop.rs` and `src/uninstall.rs`, ready for a shell to call.
