//! Expiry of stored captures.

use vstd::prelude::*;

verus! {

broadcast use vstd::string::group_string_axioms;

/// The oldest modification time (seconds since the epoch) a capture may have
/// and stay: `ttl_secs` before now, never below 0; a clock that cannot be read
/// counts as the end of time.
pub open spec fn cutoff_for(now: Option<u64>, ttl_secs: u64) -> u64 {
    let n: u64 = match now {
        Some(t) => t,
        None => u64::MAX,
    };
    if n >= ttl_secs {
        (n - ttl_secs) as u64
    } else {
        0
    }
}

/// The cutoff time of a sweep.
pub fn sweep_cutoff(now: Option<u64>, ttl_secs: u64) -> (cutoff: u64)
    ensures
        cutoff == cutoff_for(now, ttl_secs),
{
    let n = match now {
        Some(t) => t,
        None => u64::MAX,
    };
    n.saturating_sub(ttl_secs)
}

/// A store entry is removed when it is a `.json` file whose modification time
/// is known and before the cutoff; anything else is left alone.
pub open spec fn expired(extension: Option<Seq<char>>, modified: Option<u64>, cutoff: u64) -> bool {
    &&& extension == Some("json"@)
    &&& modified matches Some(m) && m < cutoff
}

/// Whether a store entry with this file extension and modification time goes.
pub fn is_expired(extension: Option<&str>, modified: Option<u64>, cutoff: u64) -> (gone: bool)
    ensures
        gone == expired(
            match extension {
                Some(e) => Some(e@),
                None => None,
            },
            modified,
            cutoff,
        ),
{
    let is_json = match extension {
        Some(e) => e.to_owned() == String::from_str("json"),
        None => false,
    };
    match modified {
        Some(m) => is_json && m < cutoff,
        None => false,
    }
}

/// A capture written less than `ttl_secs` ago survives a sweep, and one written
/// longer ago than that is removed, whenever the clock can be read.
pub proof fn lemma_sweep_respects_ttl(now: u64, ttl_secs: u64, modified: u64)
    ensures
        modified + ttl_secs > now ==> !expired(
            Some("json"@),
            Some(modified),
            cutoff_for(Some(now), ttl_secs),
        ),
        modified + ttl_secs < now ==> expired(
            Some("json"@),
            Some(modified),
            cutoff_for(Some(now), ttl_secs),
        ),
{
}

} // verus!
