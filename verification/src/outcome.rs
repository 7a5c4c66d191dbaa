//! The result of one attempt to preview a page, as it is cached and replayed.

use crate::metadata::{MetaData, MetaDataView};
use vstd::prelude::*;

verus! {

/// Success with the page's metadata, or failure with a flat, human-readable text.
#[derive(Debug, PartialEq, Eq)]
pub enum Outcome {
    Success(MetaData),
    Failure(String),
}

/// An [`Outcome`] as character sequences.
pub enum OutcomeView {
    Success(MetaDataView),
    Failure(Seq<char>),
}

impl View for Outcome {
    type V = OutcomeView;

    open spec fn view(&self) -> OutcomeView {
        match self {
            Outcome::Success(metadata) => OutcomeView::Success(metadata@),
            Outcome::Failure(text) => OutcomeView::Failure(text@),
        }
    }
}

impl Clone for Outcome {
    fn clone(&self) -> (r: Self)
        ensures
            r@ == self@,
    {
        match self {
            Outcome::Success(metadata) => Outcome::Success(metadata.clone()),
            Outcome::Failure(text) => Outcome::Failure(text.clone()),
        }
    }
}

/// What an extraction result amounts to: its metadata, or its error as text.
pub open spec fn outcome_of(extracted: Result<MetaData, String>) -> OutcomeView {
    match extracted {
        Ok(metadata) => OutcomeView::Success(metadata@),
        Err(text) => OutcomeView::Failure(text@),
    }
}

impl Outcome {
    /// The outcome that an extraction result amounts to.
    pub fn from_result(extracted: Result<MetaData, String>) -> (outcome: Outcome)
        ensures
            outcome@ == outcome_of(extracted),
    {
        match extracted {
            Ok(metadata) => Outcome::Success(metadata),
            Err(text) => Outcome::Failure(text),
        }
    }
}

} // verus!
