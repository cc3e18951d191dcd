//! A client for the SimpleSocket realtime service, as a verified core.
//!
//! The library holds the client's logic: the request format and numbering
//! (`message`, `decimal`), the decoding of server frames (`message`, with the
//! JSON parsing done by `serde_json` through `json`), the subscription hash
//! (`hashing`, `context::hash`), the client state with its subscription
//! table and queue of outgoing requests (`context`, `subscription`), the
//! decisions of the connection loop (`session`) and operation labels
//! (`util`). Sockets, tasks and callbacks into application code live with
//! the application.
pub mod text;
pub mod decimal;
pub mod hashing;
pub mod json;
pub mod message;
pub mod context;
pub mod subscription;
pub mod session;
pub mod util;

pub use context::Context;
