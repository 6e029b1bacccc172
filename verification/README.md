# observation_tools

The server side of Observation Tools: it collects executions and the
observations logged during them, stores them in a sled database, and serves
them over an HTTP API.

## Layout

- `src/` is the library, verified with Verus. It holds the parsing of Rust
  `Debug` output into JSON, the identifiers and their text forms, the stored
  records and their encodings, the storage keys, the decisions of the
  storage walks (pages of observations and payloads, direct descendants of a
  group, the breadth-first group tree, the level-by-level descendant walk,
  ancestor chains), the upload of observation batches, the answers of the
  API, API keys and CSRF checks, accounts and sessions, and the view models
  of the group tree pages. Calls into other crates go through small trusted
  functions whose contracts say what those crates do.
- `app/` is the program: the command line, the sled reads and writes that
  the library's walks ask for, blob files, JSON forms of the API types and
  the axum routes.
- `tests/` runs the library on concrete values.

## Running

```bash
observation-tools serve --data-dir .observation-tools
API_KEY_SECRET=... observation-tools generate-key
```

With `API_KEY_SECRET` set, requests that change data need an
`Authorization: Bearer obs_...` header with a key made by `generate-key`.
