# simple_socket

A client for the SimpleSocket realtime service. The client's logic is a
Verus-verified library under `src/`; the websocket plumbing is an ordinary
Rust program under `app/`.

- `src/message.rs` — request encoding (`<code><request number>,<fields>`),
  request ids, and decoding of server frames into `ServerResponse`.
- `src/json.rs` — the calls into `serde_json` (string quoting, parsing a
  frame into its elements).
- `src/hashing.rs`, `src/context.rs` — the subscription hash and the client
  state: request numbering, the queue of outgoing requests, the table of
  subscriptions, the secure id.
- `src/subscription.rs` — subscription handles and filter edits.
- `src/session.rs` — what the connection loop does with each event.
- `src/decimal.rs`, `src/text.rs`, `src/util.rs` — decimal text, string
  helpers, operation labels.
- `app/` — `connect_socket`, the `Events` and `Subscriber` traits, and a
  `main` that subscribes to post updates.
