//! Discovery of historical URLs for a domain from several independent
//! archive services: each provider's wire format is decoded into uniform
//! records, the records of all providers are merged into one deduplicating
//! result set per domain, and the set is emitted either as bare URLs or as
//! normalized timestamp/URL lines.

use vstd::prelude::*;

pub mod dates;
pub mod emit;
pub mod providers;
pub mod resultset;
pub mod strutil;

verus! {

/// A normalized observation from one provider: a first-seen date in the
/// archive's 14-digit encoding (possibly empty, meaning unknown) and the
/// discovered URL, kept verbatim.
#[derive(Debug)]
pub struct Record {
    pub date: String,
    pub url: String,
}

/// Why one provider's fetch for one domain yielded nothing. Either way the
/// provider contributes zero records and the domain's run proceeds.
#[derive(Clone, Copy, Debug, PartialEq, Eq, Structural)]
pub enum FetchError {
    /// The network call itself failed.
    SourceUnavailable,
    /// The response's top-level envelope could not be decoded at all.
    MalformedEnvelope,
}

/// Alternate mode that lists archived versions of a domain. The behaviour is
/// deliberately a stub: it emits nothing for every domain.
pub fn get_versions(_domain: &str) -> (r: Vec<String>)
    ensures
        r@.len() == 0,
{
    Vec::new()
}

} // verus!
