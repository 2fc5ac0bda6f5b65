//! Token counts and completion events, for logging and cost accounting.

use crate::json::{Json, JsonValue};
use crate::table::Table;
use vstd::prelude::*;

verus! {

/// Token counts as the model reports them.
#[derive(Debug, PartialEq, Eq, Structural)]
pub struct Usage {
    pub prompt_tokens: u64,
    pub completion_tokens: u64,
    /// Tokens spent on internal reasoning. They are billed and never shown, so
    /// the number of requests says little about their cost.
    pub reasoning_tokens: u64,
}

impl Clone for Usage {
    fn clone(&self) -> (r: Self)
        ensures
            r == *self,
    {
        Usage {
            prompt_tokens: self.prompt_tokens,
            completion_tokens: self.completion_tokens,
            reasoning_tokens: self.reasoning_tokens,
        }
    }
}

impl Default for Usage {
    fn default() -> (r: Self)
        ensures
            r == (Usage { prompt_tokens: 0, completion_tokens: 0, reasoning_tokens: 0 }),
    {
        Usage { prompt_tokens: 0, completion_tokens: 0, reasoning_tokens: 0 }
    }
}

/// What happened during one completion.
#[derive(Debug)]
pub struct CompletionEvent {
    /// The resolved model id, as it was sent.
    pub model: String,
    pub status: u16,
    pub streamed: bool,
    pub duration: std::time::Duration,
    /// Nothing where the counts are unknown, as when the client left before the
    /// last chunk. Those tokens were spent, so they are not reported as zero.
    pub usage: Option<Usage>,
}

impl Clone for CompletionEvent {
    fn clone(&self) -> (r: Self)
        ensures
            r.model@ == self.model@,
            r.status == self.status,
            r.streamed == self.streamed,
            r.duration == self.duration,
            r.usage == self.usage,
    {
        CompletionEvent {
            model: self.model.clone(),
            status: self.status,
            streamed: self.streamed,
            duration: self.duration,
            usage: match &self.usage {
                Some(u) => Some(u.clone()),
                None => None,
            },
        }
    }
}

/// The count under a name, or zero where there is none.
pub open spec fn count_under(members: Map<Seq<char>, Json>, name: Seq<char>) -> u64 {
    if members.contains_key(name) {
        match members[name].count() {
            Some(n) => n,
            None => 0,
        }
    } else {
        0
    }
}

/// The token counts in the members of a `usage` object.
pub open spec fn usage_in(members: Map<Seq<char>, Json>) -> Usage {
    Usage {
        prompt_tokens: count_under(members, "prompt_tokens"@),
        completion_tokens: count_under(members, "completion_tokens"@),
        reasoning_tokens: match Json::Object(members).field("completion_tokens_details"@) {
            Some(Json::Object(details)) => count_under(details, "reasoning_tokens"@),
            _ => 0,
        },
    }
}

/// The count that a value is, or zero.
fn count_or_zero(value: Option<&JsonValue>) -> (r: u64)
    ensures
        r == (match value {
            Some(v) => match v@.count() {
                Some(n) => n,
                None => 0,
            },
            None => 0,
        }),
{
    match value {
        Some(v) => match v.as_u64() {
            Some(n) => n,
            None => 0,
        },
        None => 0,
    }
}

/// Reads the `usage` object of a response.
///
/// The reasoning tokens stand in a `completion_tokens_details` object inside it.
/// A count that is missing is zero.
pub fn parse_usage(usage: &Table<JsonValue>) -> (r: Usage)
    ensures
        r == usage_in(crate::json::members_json(*usage)),
{
    proof {
        use_type_invariant(usage);
        crate::json::lemma_members(*usage);
    }
    let reasoning = match usage.get("completion_tokens_details") {
        Some(details) => details.get("reasoning_tokens"),
        None => None,
    };
    Usage {
        prompt_tokens: count_or_zero(usage.get("prompt_tokens")),
        completion_tokens: count_or_zero(usage.get("completion_tokens")),
        reasoning_tokens: count_or_zero(reasoning),
    }
}

} // verus!
