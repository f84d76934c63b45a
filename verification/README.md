# firebase_rs_sdk

A Rust client for Firebase services whose logic is written in Verus and proved
against its contracts.

## Layout

- `src/` — the verified library.
  - `firestore/` — documents and values (`model/`, `value/`), queries and
    their evaluation (`api/`, `query_evaluator.rs`), a client over the
    in-memory datastore (`api/document.rs`), the local store with pending
    writes, target metadata, limbo, query listeners and the journal of what
    a persistence layer must keep or forget (`local/`), and the
    wire formats of the REST and streaming protocols, the decisions of a
    persistent stream, the mutation queue and the bridge that feeds remote
    events to the local store (`remote/`).
  - `functions/` — callable endpoints, request bodies and headers, and the
    reading of callable responses.
  - `installations/`, `messaging/`, `performance/` — installation ids and
    tokens, messaging tokens, and performance traces.
  - `json.rs`, `text.rs` — JSON values and text helpers with their models.
  - `platform/` — the clock and random source, behind small trusted
    wrappers.
- `app/` — what Verus does not see: HTTP and file I/O, async plumbing, serde
  conversions, the invocation of listener callbacks, and handing the
  store's persistence requests to a persistence layer.
- `tests/` — tests of the library, run against the compiled crate.

Outside crates (`base64`, `chrono`, `url`, `percent-encoding`, `rand`,
`reqwest`'s status table) are called from `src/` only through wrappers whose
contracts state what their documentation promises.
