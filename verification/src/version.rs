//! The clock that orders commits.

use vstd::prelude::*;

verus! {

/// MVCC version.
pub type Version = u64;

/// The clock that every transaction starts from and every commit moves forward.
pub struct Clock {
    /// The version of the last commit.
    pub now: Version,
}

impl Clock {
    /// A clock before the first commit.
    pub fn new() -> (clock: Clock)
        ensures
            clock.now == 0,
    {
        Clock { now: 0 }
    }
}

/// Increment the clock and return the new value.
pub fn next_version(clock: &mut Clock) -> (version: Version)
    requires
        old(clock).now < Version::MAX,
    ensures
        version == old(clock).now + 1,
        final(clock).now == version,
{
    clock.now = clock.now + 1;
    clock.now
}

/// Get the current version of the clock.
pub fn current_version(clock: &Clock) -> (version: Version)
    ensures
        version == clock.now,
{
    clock.now
}

} // verus!
