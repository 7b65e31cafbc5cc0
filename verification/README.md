# gtk4_e2e_server

An in-process test server for GTK4 applications: it exposes the widget
tree over HTTP and WebSocket (`/test/info`, `/test/tap`, `/test/type`,
`/test/wait`, `/test/elements`, `/test/screenshot`, `/test/state`,
`/test/events`, ...) so that an end-to-end test can drive the app.

Layout:

- `src/` is the verified library. It holds the request model and its
  validation, selector parsing and matching over a plain model of the widget
  tree (`tree.rs`), the decisions behind every input endpoint (`input.rs`),
  element listings (`elements.rs`), wait conditions and polling
  (`wait.rs`), JSON values and JSON Pointers (`json.rs`, `state.rs`),
  query-string parsing and error replies (`http.rs`, `reply.rs`,
  `messages.rs`), event filtering (`ws.rs`, `notify.rs`) and the registry
  and port rules (`registry.rs`, `port.rs`). Every function carries a
  contract checked by Verus; the laws of the library are public proof
  functions named `law_*`.
- `app/` is the unverified shell around it: the axum router and tokio
  runtime, the GTK main-thread side that snapshots widgets into the model
  and performs the decided actions, serde copies of the wire types, and the
  file-system and network edges.
- `tests/` runs the library on concrete values.

Not implemented: touch drags. No request type, error set or limits are
defined for them, so there is no `/test/touch-drag` route; like every
unknown route under `/test/`, that path answers 501 `not_implemented` with
`"capability": "touch-drag"`.
