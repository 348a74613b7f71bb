# ocm_backend

The backend of the OpenCode Config Manager: it merges a provider's model list with
models.dev metadata, filters and selects models, and writes the chosen providers and
models into `opencode.json` while keeping everything else in that file.

- `src/` is the library, written in Verus: every function has a contract, and every
  function but the few that call outside code is proved. Those few are trusted, not
  proved: `push_char` and `to_lowercase` (`text.rs`, over std's `String::push` and
  `str::to_lowercase`), and `parse_json_text` with its two conversion helpers
  (`json_text.rs`, over `serde_json::from_str`); their doc comments say what their
  contracts claim. Its files cover JSON values and merge-patch (`json`, `json_text`), JSONC
  comments and the written layout (`jsonc`, `collapse`), model-id matching and
  metadata lookup (`candidates`, `modelsdev`, `index`, `resolve`), the catalog
  (`catalog`, `sort`), selections and the configuration written from them
  (`selection`, `apply`, `import`), and the backup, settings and server helpers.
  Laws that span several functions are the public proof functions.
- `tests/` runs the library on concrete values.
- `app/` is the service around it: HTTP routes, the SQLite database, the outside
  requests, caching and file access. It reads and writes; the library decides.
