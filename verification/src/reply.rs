//! Answers that are not streamed: a status and a JSON body.

use crate::json::{Json, JsonValue};
use vstd::prelude::*;

verus! {

/// The status for a key that is not the gateway's.
pub const UNAUTHORIZED: u16 = 401;

/// The status for a model that could not be reached or asked.
pub const BAD_GATEWAY: u16 = 502;

/// The status for an answer as it should be.
pub const OK: u16 = 200;

/// A status and a JSON body.
pub struct Reply {
    pub status: u16,
    pub body: JsonValue,
}

/// An error in the shape in which clients display one.
pub open spec fn error_json(message: Seq<char>) -> Json {
    Json::Object(
        map!["error"@ => Json::Object(map!["message"@ => Json::Text(message)])],
    )
}

/// An error object, so that clients can show the message.
pub fn error_body(message: &str) -> (r: JsonValue)
    ensures
        r@ == error_json(message@),
{
    let inner = JsonValue::object().with("message", JsonValue::text(message));
    let r = JsonValue::object().with("error", inner);
    proof {
        assert(inner@ =~= Json::Object(map!["message"@ => Json::Text(message@)]));
        assert(r@ =~= error_json(message@));
    }
    r
}

/// Whether a status says that the request succeeded.
pub fn is_success(status: u16) -> (r: bool)
    ensures
        r == (200 <= status <= 299),
{
    200 <= status && status < 300
}

} // verus!
