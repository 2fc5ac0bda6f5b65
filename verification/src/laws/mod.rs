//! What holds of the gateway, stated over the members of documents, the
//! characters of texts and the bytes of streams.
//!
//! Each law says what an operation makes of its input: what the result has
//! where, what stays as it was, and when nothing comes out.

pub mod calls;
pub mod documents;
pub mod ids;
pub mod requests;
pub mod streams;
