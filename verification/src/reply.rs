//! What the transport layer sends for an outcome.

use crate::cache::MAX_AGE;
use crate::metadata::MetaData;
use crate::outcome::{Outcome, OutcomeView};
use vstd::prelude::*;

verus! {

/// The response to a preview request, short of its serialization.
#[derive(Debug, PartialEq, Eq)]
pub enum Reply {
    /// Status 200: the metadata as the body, cacheable by the client for `max_age`
    /// seconds.
    Preview { max_age: u32, metadata: MetaData },
    /// Status 500: the error text as the body, verbatim.
    Error { body: String },
}

impl Reply {
    /// The HTTP status code of the response.
    pub open spec fn status_code(&self) -> int {
        match self {
            Reply::Preview { .. } => 200,
            Reply::Error { .. } => 500,
        }
    }

    /// The HTTP status code of the response.
    pub fn status(&self) -> (code: u16)
        ensures
            code == self.status_code(),
    {
        match self {
            Reply::Preview { .. } => 200,
            Reply::Error { .. } => 500,
        }
    }
}

/// The response for an outcome: a success is sent with the cache's time to live as
/// the client's, a failure as a server error that carries its text unchanged.
pub fn reply_to(outcome: Outcome) -> (reply: Reply)
    ensures
        match outcome@ {
            OutcomeView::Success(metadata) => reply matches Reply::Preview { max_age, metadata: sent }
                && max_age == MAX_AGE && sent@ == metadata,
            OutcomeView::Failure(text) => reply matches Reply::Error { body } && body@ == text,
        },
{
    match outcome {
        Outcome::Success(metadata) => Reply::Preview { max_age: MAX_AGE as u32, metadata },
        Outcome::Failure(text) => Reply::Error { body: text },
    }
}

} // verus!
