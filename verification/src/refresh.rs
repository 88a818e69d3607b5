//! Catalog refresh policy: when the cached detection file still serves,
//! when a fetch is due, and how the refresh loop backs off after a failure.
//! The surrounding application reads and writes the cache file and performs
//! the fetch; every decision stands here.

use vstd::prelude::*;

use crate::catalog::Root2;

verus! {

/// How long a fetched catalog stays fresh, in seconds.
pub const REFRESH_INTERVAL_SECS: u64 = 86400;

/// How long the refresh loop sleeps after a failed fetch before it tries
/// again, in seconds.
pub const RETRY_BACKOFF_SECS: u64 = 60;

/// How often the poll loop ticks, in seconds.
pub const POLL_INTERVAL_SECS: u64 = 1;

/// The detection engine's failures.
#[derive(Clone, Copy, Debug, PartialEq, Eq, Structural)]
pub enum DetectionError {
    /// The catalog could not be fetched from the remote source.
    CatalogFetchFailed,
    /// The cached catalog file exists but does not parse.
    CatalogCacheCorrupt,
}

/// What one pass of the refresh loop does.
#[derive(Clone, Copy, Debug, PartialEq, Eq, Structural)]
pub enum RefreshDecision {
    /// The cache still serves; sleep until its time-to-live elapses.
    UseCache { sleep_secs: u64 },
    /// Fetch the catalog and rewrite the cache.
    Fetch,
}

/// Decides one pass of the refresh loop from the cache file's age (`None`
/// where no cache file exists). A cache whose age has not yet passed the
/// time-to-live — the boundary itself included — still serves, unless the
/// refresh is forced; anything else calls for a fetch.
pub fn refresh_decision(cache_age_secs: Option<u64>, force: bool) -> (r: RefreshDecision)
    ensures
        (match cache_age_secs {
            Some(age) => {
                if age <= REFRESH_INTERVAL_SECS && !force {
                    r == (RefreshDecision::UseCache {
                        sleep_secs: (REFRESH_INTERVAL_SECS - age) as u64,
                    })
                } else {
                    r == RefreshDecision::Fetch
                }
            },
            None => r == RefreshDecision::Fetch,
        }),
{
    match cache_age_secs {
        Some(age) => {
            if age <= REFRESH_INTERVAL_SECS && !force {
                RefreshDecision::UseCache { sleep_secs: REFRESH_INTERVAL_SECS - age }
            } else {
                RefreshDecision::Fetch
            }
        },
        None => RefreshDecision::Fetch,
    }
}

/// Reads what came of loading the cached catalog file: no file means an
/// empty catalog (to be refreshed at once), a file that does not parse is
/// an error, and a parsed file is taken as it is. The outer `Option` says
/// whether the file exists, the inner whether it parsed.
pub fn interpret_cache(loaded: Option<Option<Vec<Root2>>>) -> (r: Result<Vec<Root2>, DetectionError>)
    ensures
        (match loaded {
            None => r matches Ok(c) && c@.len() == 0,
            Some(None) => r == Result::<Vec<Root2>, DetectionError>::Err(
                DetectionError::CatalogCacheCorrupt,
            ),
            Some(Some(catalog)) => r matches Ok(c) && c == catalog,
        }),
{
    match loaded {
        None => Ok(Vec::new()),
        Some(None) => Err(DetectionError::CatalogCacheCorrupt),
        Some(Some(catalog)) => Ok(catalog),
    }
}

/// A refresh is forced exactly when the catalog in hand is empty.
pub fn needs_forced_refresh(catalog: &Vec<Root2>) -> (r: bool)
    ensures
        r == (catalog@.len() == 0),
{
    catalog.len() == 0
}

} // verus!
