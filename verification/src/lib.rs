//! Core of a link-preview service.
//!
//! - [`fetch`]: response bodies arrive in chunks and are kept as text up to a fixed
//!   byte budget, cut only where a character ends.
//! - [`scrape`]: the text is scraped for metadata, and the result of fetch and scrape
//!   becomes an [`Outcome`].
//! - [`cache`]: outcomes, failures included, are memoized under the exact URL for a
//!   fixed time to live.
//! - [`reply`]: what is sent for an outcome.
//!
//! Sockets, the HTTP client, the shared map, the clock and the stack on which a page
//! is scraped belong to the program around this library; it hands over chunks,
//! entries and seconds, and acts on what comes back.

pub mod cache;
pub mod fetch;
pub mod metadata;
pub mod outcome;
pub mod reply;
pub mod scrape;
pub mod utf8;

pub use crate::metadata::{MetaData, Metatag};
pub use crate::outcome::Outcome;
