//! Reading spans off the node's clock. Time is a count of ticks handed in
//! by the caller; the engine never reads a clock itself.

use vstd::prelude::*;

verus! {

/// Whether at least `span` ticks have passed from `since` to `now`. A clock
/// that ran backwards has let no time pass.
pub open spec fn elapsed(since: u64, now: u64, span: u64) -> bool {
    now >= since && now - since >= span
}

/// Whether at least `span` ticks have passed from `since` to `now`.
pub fn has_elapsed(since: u64, now: u64, span: u64) -> (yes: bool)
    ensures
        yes == elapsed(since, now, span),
{
    now >= since && now - since >= span
}

} // verus!
