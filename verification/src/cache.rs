//! The memoizing result cache: outcomes are kept under the exact request URL for a
//! fixed time to live, successes and failures alike, and a live entry is replayed
//! without any new fetch.
//!
//! The map itself belongs to the caller: a concurrent map from URL to [`CacheEntry`]
//! with `get` and `insert`. This module decides what a lookup amounts to and what is
//! stored after a miss, and states over a model of that map what a sequence of
//! requests observes.

use crate::outcome::{Outcome, OutcomeView};
use vstd::prelude::*;

verus! {

/// Time to live of a cached outcome, in seconds: one day.
pub const MAX_AGE: u64 = 86400;

/// A cached outcome and the second at which it was stored.
#[derive(Debug, PartialEq, Eq)]
pub struct CacheEntry {
    outcome: Outcome,
    stored_at: u64,
}

/// A [`CacheEntry`] as mathematical values.
pub struct CacheEntryView {
    pub outcome: OutcomeView,
    pub stored_at: nat,
}

/// An entry is live until its time to live has elapsed, and expired from then on.
pub open spec fn live(entry: CacheEntryView, now: nat) -> bool {
    now < entry.stored_at + MAX_AGE
}

/// What a lookup answers, given the entry found under the URL, if any: the stored
/// outcome of a live entry, and nothing otherwise.
pub open spec fn fresh(found: Option<CacheEntryView>, now: nat) -> Option<OutcomeView> {
    match found {
        Some(entry) => if live(entry, now) {
            Some(entry.outcome)
        } else {
            None
        },
        None => None,
    }
}

/// The view of an entry that a map lookup handed back, if it did.
pub open spec fn found_view(found: Option<CacheEntry>) -> Option<CacheEntryView> {
    match found {
        Some(entry) => Some(entry@),
        None => None,
    }
}

impl View for CacheEntry {
    type V = CacheEntryView;

    closed spec fn view(&self) -> CacheEntryView {
        CacheEntryView { outcome: self.outcome@, stored_at: self.stored_at as nat }
    }
}

impl Clone for CacheEntry {
    fn clone(&self) -> (r: Self)
        ensures
            r@ == self@,
    {
        CacheEntry { outcome: self.outcome.clone(), stored_at: self.stored_at }
    }
}

impl CacheEntry {
    /// The entry under which `outcome` is stored at the second `now`.
    pub fn new(outcome: Outcome, now: u64) -> (entry: CacheEntry)
        ensures
            entry@ == (CacheEntryView { outcome: outcome@, stored_at: now as nat }),
    {
        CacheEntry { outcome, stored_at: now }
    }

    /// The second at which the entry was stored.
    pub fn stored_at(&self) -> (second: u64)
        ensures
            second == self@.stored_at,
    {
        self.stored_at
    }

    /// The stored outcome.
    pub fn outcome(&self) -> (outcome: &Outcome)
        ensures
            outcome@ == self@.outcome,
    {
        &self.outcome
    }

    /// Whether the entry is still live at the second `now`.
    pub fn is_live(&self, now: u64) -> (r: bool)
        ensures
            r == live(self@, now as nat),
    {
        now < self.stored_at || now - self.stored_at < MAX_AGE
    }
}

/// A request that has its URL and awaits what the map holds under it.
#[derive(Debug, PartialEq, Eq)]
pub struct Looking {
    url: String,
}

/// A request that missed and awaits the outcome of its fetch.
#[derive(Debug, PartialEq, Eq)]
pub struct Computing {
    url: String,
}

/// What a request does after its lookup.
#[derive(Debug, PartialEq, Eq)]
pub enum AfterLookup {
    /// A live entry was found: answer with its outcome, and fetch nothing.
    Hit(Outcome),
    /// Nothing live was found: fetch and extract, then hand the outcome over.
    Miss(Computing),
}

/// What a request does after a miss, once the outcome is computed: put `entry` in the
/// map under `key`, then answer with `outcome`.
#[derive(Debug, PartialEq, Eq)]
pub struct Stored {
    pub key: String,
    pub entry: CacheEntry,
    pub outcome: Outcome,
}

impl Looking {
    /// The URL of the request.
    pub closed spec fn url(&self) -> Seq<char> {
        self.url@
    }

    /// A request for `url`, taken as it is written.
    pub fn new(url: &str) -> (request: Looking)
        ensures
            request.url() == url@,
    {
        Looking { url: url.to_owned() }
    }

    /// The key to look up: the URL itself, character for character.
    pub fn key(&self) -> (key: &str)
        ensures
            key@ == self.url(),
    {
        self.url.as_str()
    }

    /// Decides the request at the second `now`, given what the map holds under its
    /// key. An expired entry counts as absent, whether or not the map has purged it.
    pub fn found(self, found: Option<CacheEntry>, now: u64) -> (next: AfterLookup)
        ensures
            match fresh(found_view(found), now as nat) {
                Some(outcome) => next matches AfterLookup::Hit(answer) && answer@ == outcome,
                None => next matches AfterLookup::Miss(computing) && computing.url() == self.url(),
            },
    {
        match found {
            Some(entry) => if entry.is_live(now) {
                AfterLookup::Hit(entry.outcome)
            } else {
                AfterLookup::Miss(Computing { url: self.url })
            },
            None => AfterLookup::Miss(Computing { url: self.url }),
        }
    }
}

impl Computing {
    /// The URL of the request.
    pub closed spec fn url(&self) -> Seq<char> {
        self.url@
    }

    /// The URL to fetch.
    pub fn target(&self) -> (url: &str)
        ensures
            url@ == self.url(),
    {
        self.url.as_str()
    }

    /// Takes the computed outcome at the second `now`: it is stored under the
    /// request's URL, stamped `now`, and it is the answer. Failures are stored as
    /// successes are.
    pub fn computed(self, outcome: Outcome, now: u64) -> (stored: Stored)
        ensures
            stored.key@ == self.url(),
            stored.entry@ == (CacheEntryView { outcome: outcome@, stored_at: now as nat }),
            stored.outcome@ == outcome@,
    {
        let entry = CacheEntry::new(outcome.clone(), now);
        Stored { key: self.url, entry, outcome }
    }
}

/// What the map holds under `url`, if anything.
pub open spec fn entry_at(store: Map<Seq<char>, CacheEntryView>, url: Seq<char>) -> Option<
    CacheEntryView,
> {
    if store.contains_key(url) {
        Some(store[url])
    } else {
        None
    }
}

/// What one request observes and what it leaves behind.
pub struct Served {
    /// The outcome the request is answered with.
    pub outcome: OutcomeView,
    /// Whether the request fetched.
    pub fetched: bool,
    /// The map after the request.
    pub store: Map<Seq<char>, CacheEntryView>,
}

/// One request for `url` against `store`: the lookup is decided at `asked_at`; on a
/// miss the fetch yields `computed`, which is stored at `stored_at` and answered.
/// This is the path through [`Looking::found`] and [`Computing::computed`], with the
/// map's `get` and `insert` in between.
pub open spec fn get_or_compute(
    store: Map<Seq<char>, CacheEntryView>,
    url: Seq<char>,
    asked_at: nat,
    computed: OutcomeView,
    stored_at: nat,
) -> Served {
    match fresh(entry_at(store, url), asked_at) {
        Some(outcome) => Served { outcome, fetched: false, store },
        None => Served {
            outcome: computed,
            fetched: true,
            store: store.insert(url, CacheEntryView { outcome: computed, stored_at }),
        },
    }
}

/// Every request leaves an entry under its URL.
pub proof fn lemma_request_leaves_entry(
    store: Map<Seq<char>, CacheEntryView>,
    url: Seq<char>,
    asked_at: nat,
    computed: OutcomeView,
    stored_at: nat,
)
    ensures
        get_or_compute(store, url, asked_at, computed, stored_at).store.contains_key(url),
{
}

/// Idempotence. A second request for the same URL, made while the entry that the
/// first one left is still live, is answered with the identical outcome, fetches
/// nothing, and leaves the map as it was.
pub proof fn lemma_idempotence(
    store: Map<Seq<char>, CacheEntryView>,
    url: Seq<char>,
    asked_at: nat,
    computed: OutcomeView,
    stored_at: nat,
    asked_again_at: nat,
    computed_again: OutcomeView,
    stored_again_at: nat,
)
    requires
        live(get_or_compute(store, url, asked_at, computed, stored_at).store[url], asked_again_at),
    ensures
        ({
            let first = get_or_compute(store, url, asked_at, computed, stored_at);
            let second = get_or_compute(
                first.store,
                url,
                asked_again_at,
                computed_again,
                stored_again_at,
            );
            &&& second.outcome == first.outcome
            &&& !second.fetched
            &&& second.store == first.store
        }),
{
}

/// An entry stored by a miss stays live for the whole time to live, counted from the
/// moment of storing, and not a second longer.
pub proof fn lemma_stored_entry_lifetime(
    store: Map<Seq<char>, CacheEntryView>,
    url: Seq<char>,
    asked_at: nat,
    computed: OutcomeView,
    stored_at: nat,
    later: nat,
)
    requires
        get_or_compute(store, url, asked_at, computed, stored_at).fetched,
    ensures
        live(get_or_compute(store, url, asked_at, computed, stored_at).store[url], later) <==> later
            < stored_at + MAX_AGE,
{
}

/// Negative caching. Where a request misses and its fetch or parse fails, the
/// failure is answered and stored, and a request for the same URL within the time to
/// live is answered with the same error text, without a new fetch.
pub proof fn lemma_negative_caching(
    store: Map<Seq<char>, CacheEntryView>,
    url: Seq<char>,
    asked_at: nat,
    error: Seq<char>,
    stored_at: nat,
    asked_again_at: nat,
    computed_again: OutcomeView,
    stored_again_at: nat,
)
    requires
        fresh(entry_at(store, url), asked_at) is None,
        asked_again_at < stored_at + MAX_AGE,
    ensures
        ({
            let first = get_or_compute(
                store,
                url,
                asked_at,
                OutcomeView::Failure(error),
                stored_at,
            );
            let second = get_or_compute(
                first.store,
                url,
                asked_again_at,
                computed_again,
                stored_again_at,
            );
            &&& first.fetched
            &&& first.outcome == OutcomeView::Failure(error)
            &&& !second.fetched
            &&& second.outcome == OutcomeView::Failure(error)
        }),
{
}

/// Expiry. Once the time to live of the entry that a request left has elapsed, the
/// next request for the same URL fetches afresh, is answered with what that fetch
/// yields, and replaces the entry.
pub proof fn lemma_expiry(
    store: Map<Seq<char>, CacheEntryView>,
    url: Seq<char>,
    asked_at: nat,
    computed: OutcomeView,
    stored_at: nat,
    asked_again_at: nat,
    computed_again: OutcomeView,
    stored_again_at: nat,
)
    requires
        asked_again_at >= get_or_compute(store, url, asked_at, computed, stored_at).store[url].stored_at
            + MAX_AGE,
    ensures
        ({
            let first = get_or_compute(store, url, asked_at, computed, stored_at);
            let second = get_or_compute(
                first.store,
                url,
                asked_again_at,
                computed_again,
                stored_again_at,
            );
            &&& second.fetched
            &&& second.outcome == computed_again
            &&& entry_at(second.store, url) == Some(
                CacheEntryView { outcome: computed_again, stored_at: stored_again_at },
            )
        }),
{
}

/// Key exactness. A request leaves alone whatever the map holds under any other URL,
/// where URLs that differ in a single character, be it only a slash at the end, are
/// other URLs.
pub proof fn lemma_key_exactness(
    store: Map<Seq<char>, CacheEntryView>,
    url: Seq<char>,
    other: Seq<char>,
    asked_at: nat,
    computed: OutcomeView,
    stored_at: nat,
)
    requires
        url != other,
    ensures
        entry_at(get_or_compute(store, url, asked_at, computed, stored_at).store, other)
            == entry_at(store, other),
        url.push('/') != url,
        forall|i: int, c: char| 0 <= i < url.len() && c != url[i] ==> #[trigger] url.update(i, c) != url,
{
    assert(url.push('/').len() != url.len());
}

} // verus!
