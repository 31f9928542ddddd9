# zdb

A desktop client for PostgreSQL whose logic is verified with Verus.

- `src/` is the library. It holds the state of the window and everything that is decided in
  it: tabs, queries, staged edits and the SQL they become, the schema tree, exports, the
  settings, the messages to the completion server, and the choices of the database worker.
  Every function states what it returns or changes; the `law_` functions state what holds
  across functions.
- `app/` is the program round it: windows, files, processes, the keychain and the
  connection to the server. It hands events to the library's `Workspace`, performs the
  effects that come back, and draws what the library says is to be shown. It needs `gpui`,
  `gpui-component` and `gpui-terminal` besides the crates in `Cargo.toml`, and the icons in
  `assets/icons` beside the program.
- `tests/` runs the library on examples.

## Modules

| Module | What it is about |
|---|---|
| `text`, `sql`, `lexing` | texts, statements under a cursor, how generated SQL reads |
| `types`, `error`, `config`, `tls` | values, errors, connections, trusted certificates |
| `edit`, `export`, `readback` | row edits, exports, and that both read back |
| `query`, `describe`, `introspect`, `catalog`, `actor` | what the worker does |
| `settings`, `lsp`, `assets` | settings, completion, icons |
| `ids`, `tree`, `tree_laws` | the schema tree |
| `workspace` | the state of the window and everything that changes it |
