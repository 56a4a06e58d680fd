//! Cache policy and per-call cache overrides.

use vstd::prelude::*;

verus! {

/// Whether generated system content may be cached, and for how long.
#[derive(Clone, Copy, Debug, PartialEq, Eq)]
pub enum CachePolicy {
    /// Never cache.
    Disabled,
    /// Cache entries live this many seconds.
    Enabled { ttl_secs: u64 },
}

/// Per-call overrides for caching behavior.
#[derive(Debug)]
pub struct CacheSettings {
    /// Cache key override.
    pub key: Option<String>,
    /// Time-to-live override, in seconds.
    pub ttl_override: Option<u64>,
}

impl Default for CacheSettings {
    fn default() -> (r: Self)
        ensures
            r.key is None,
            r.ttl_override is None,
    {
        CacheSettings { key: None, ttl_override: None }
    }
}

impl CacheSettings {
    /// Settings with only a key override.
    pub fn with_key(key: String) -> (r: Self)
        ensures
            r.key == Some(key),
            r.ttl_override is None,
    {
        CacheSettings { key: Some(key), ttl_override: None }
    }

    /// Settings with only a time-to-live override.
    pub fn with_ttl(ttl_secs: u64) -> (r: Self)
        ensures
            r.key is None,
            r.ttl_override == Some(ttl_secs),
    {
        CacheSettings { key: None, ttl_override: Some(ttl_secs) }
    }

    /// Settings with both overrides.
    pub fn with_key_and_ttl(key: String, ttl_secs: u64) -> (r: Self)
        ensures
            r.key == Some(key),
            r.ttl_override == Some(ttl_secs),
    {
        CacheSettings { key: Some(key), ttl_override: Some(ttl_secs) }
    }
}

} // verus!
