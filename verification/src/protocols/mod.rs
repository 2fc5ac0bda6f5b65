//! One module for each protocol of the wire.
//!
//! A module builds the target URL and shapes the body of the request. What
//! follows is the same for all of them, and stands in `forward`.

pub mod openai;
