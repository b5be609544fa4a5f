//! The local result cache of the presentation layer: the country code last
//! looked up, and when.  Reading and writing the cache file is the outer
//! program's concern; the freshness rule lives here.

use vstd::prelude::*;

verus! {

/// How many seconds a cached country code stays fresh.
pub const REFRESH_AFTER_SEC: u64 = 1800;

/// A cached lookup: when it was stored, and the 2-letter country code found.
#[derive(Clone, Debug)]
pub struct Cache {
    /// Seconds since the epoch when the cache was last written.
    pub modified_time: u64,
    /// The 2-letter country code stored.
    pub country_code: String,
}

impl Cache {
    /// Whether the cache entry may still be used at `now_secs` seconds since
    /// the epoch: its age, clamped at zero for clocks that went backwards,
    /// is below the refresh window.
    pub fn is_outdated(&self, now_secs: u64) -> (r: bool)
        ensures
            r == ({
                let age = if now_secs >= self.modified_time {
                    now_secs - self.modified_time
                } else {
                    0int
                };
                age < REFRESH_AFTER_SEC
            }),
    {
        let age: u64 = if now_secs >= self.modified_time {
            now_secs - self.modified_time
        } else {
            0
        };
        age < REFRESH_AFTER_SEC
    }
}

} // verus!
