# Firebee

A small desktop API client's back end (a lean Postman), written in Verus:
requests with params, headers, JSON/text/form/GraphQL bodies and
Bearer/Basic/API-key auth; `{{variable}}` substitution from environments,
with dynamic `{{$uuid}}`, `{{$timestamp}}`, `{{$isoTimestamp}}` and
`{{$randomInt}}`; collections with nested folders; a history of the last 500
sends; export as curl or Python (`requests`); import of curl command lines,
Postman collections (v2.x) and Postman environments.

## Layout

- `src/` — the verified library. Every function carries a contract that
  Verus proves, except the small wrappers around calls into serde_json,
  uuid, chrono, the URL parser and std, whose contracts (stated from those
  crates' sources and documentation) are trusted.
  - `text` — the string operations the rest is written with.
  - `models` — requests, collections, environments, and their views.
  - `vars` — `{{variable}}` substitution and the undefined names.
  - `json`, `url` — JSON values as plain data; URL parsing through `reqwest::Url`.
  - `import` — shell word splitting and curl import; `export` — curl and
    Python export.
  - `http` — what a request is sent as, and the errors of a send.
  - `postman` — Postman collection and environment conversion.
  - `storage` — file names and the part of the history that is kept.
  - `commands` — what the front end asks of the back end.
  - `ui`, `sidebar`, `editor`, `worker` — the decisions of the editor, the
    collection tree, the environment manager, and the send/history cycle.
- `app/` — the program around it: files, the network, the worker thread,
  and a JSON-lines command interface on standard input and output.
- `tests/` — tests of the library on concrete values.
