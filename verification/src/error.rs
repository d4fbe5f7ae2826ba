//! The error taxonomy of the engine. Every failure path returns one of
//! these values; nothing in the engine panics or aborts the process.

use vstd::prelude::*;

verus! {

/// Why a fetch-and-compute cycle, or a snapshot lookup, failed.
#[derive(Clone, Copy, Debug, PartialEq, Eq, Structural)]
pub enum Error {
    /// The upstream analytics API could not be reached or its answer could
    /// not be decoded. Never cached: the next request retries.
    UpstreamFetch,
    /// A game's raw category field did not match the pipe-delimited
    /// encoding; the whole computation for that year is aborted.
    MalformedCategory,
    /// A historical year outside the set of known snapshots was requested.
    UntrackedYear,
    /// Too many concurrent requests were queued in front of the coordinator.
    Overloaded,
}

} // verus!
