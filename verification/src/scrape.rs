//! Metadata extraction: the page text goes to the scraper, and what comes back, or
//! the reason why nothing did, becomes an outcome.

use crate::fetch::{chunk_bytes, collect_text, fetched, FetchError, PageText, MAX_SIZE};
use crate::metadata::{MetaData, MetaDataView, Metatag};
use crate::outcome::{Outcome, OutcomeView};
use vstd::prelude::*;
use vstd::string::*;
use vstd::utf8::*;

verus! {

/// The deepest that the elements of a page can nest: an element takes two bytes at
/// the least, and a page has no more than `MAX_SIZE`. The scraper descends once per
/// level, so this is the descent that the stack of its caller has to hold.
pub const MAX_DEPTH: usize = MAX_SIZE / 2;

/// The metadata that the scraper reads out of a page, as a function of the page's text.
pub uninterp spec fn scraped(text: Seq<char>) -> MetaDataView;

/// `metascraper::MetaScraper::parse`, then `metadata` on the parsed page, with each
/// field moved into this library's record.
///
/// The parse is refused only for a text of more than `u32::MAX` bytes, and the scraper
/// gathers an element's text by descending once per level of nesting: the call is made
/// only for a text within `MAX_SIZE`, which the parse accepts and which nests no
/// deeper than `MAX_DEPTH`, on a stack that holds such a descent. The metadata is a
/// function of the text alone, named `scraped`.
#[verifier::external_body]
fn scrape(text: &str) -> (r: Result<MetaData, String>)
    requires
        text.spec_bytes().len() <= MAX_SIZE,
    ensures
        r is Ok,
        r matches Ok(metadata) ==> metadata@ == scraped(text@),
{
    let page = metascraper::MetaScraper::parse(text).map_err(|e| e.to_string())?;
    let m = page.metadata();
    let metatags = m.metatags.map(|tags| {
        tags.into_iter().map(|t| Metatag { name: t.name, content: t.content }).collect()
    });
    Ok(MetaData {
        title: m.title, description: m.description, canonical: m.canonical,
        language: m.language, rss: m.rss, image: m.image, amp: m.amp,
        author: m.author, date: m.date, metatags,
    })
}

/// The outcome of a preview, given the result of the fetch: the metadata scraped from
/// the text, or the description of why the fetch gave none.
pub open spec fn preview(result: Result<PageText, FetchError>) -> OutcomeView {
    match result {
        Ok(text) => OutcomeView::Success(scraped(text@)),
        Err(error) => OutcomeView::Failure(error.text()),
    }
}

/// Turns the result of a fetch into the outcome of the preview: the text is scraped
/// for metadata, and the failure of a step is kept as its description, unchanged.
pub fn preview_of(result: Result<PageText, FetchError>) -> (outcome: Outcome)
    ensures
        outcome@ == preview(result),
{
    match result {
        Ok(text) => Outcome::from_result(scrape(text.as_str())),
        Err(error) => Outcome::Failure(error.into_message()),
    }
}

/// The outcome of a preview of a body whose chunks are all at hand: the metadata of
/// the body clipped, or the description of why the fetch gave no text.
pub fn preview_of_body(chunks: &[Vec<u8>]) -> (outcome: Outcome)
    ensures
        match fetched(chunk_bytes(chunks@)) {
            Ok(bytes) => bytes.len() <= MAX_SIZE && outcome@ == OutcomeView::Success(
                scraped(decode_utf8(bytes)),
            ),
            Err(message) => outcome@ == OutcomeView::Failure(message),
        },
{
    preview_of(collect_text(chunks))
}

} // verus!
