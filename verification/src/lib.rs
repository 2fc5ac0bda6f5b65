//! An OpenAI-compatible gateway for Vertex AI: the logic of it.
//!
//! The service speaks the chat completions protocol, but wants access tokens
//! that expire within the hour, and editors can store a static key only. The
//! gateway stands between the two:
//!
//! ```text
//! editor  --(static key)-->  gateway  --(refreshed token)-->  Vertex AI
//! ```
//!
//! This library decides what goes where. It makes a request to the service out
//! of one from a client, carries the signatures of tool calls through the ids
//! that clients return, takes a stream apart into lines and puts it together
//! again, and counts tokens. It reads no environment and opens no connection.

pub mod codec;
pub mod config;
pub mod forward;
pub mod json;
pub mod laws;
pub mod observe;
pub mod protocols;
pub mod reply;
pub mod routes;
pub mod sse;
pub mod table;
pub mod text;
pub mod thought;

pub use config::{default_aliases, Config};
pub use forward::upstream_error;
pub use observe::{CompletionEvent, Usage};
pub use protocols::openai::chat;
