//! The system clock.

use vstd::prelude::*;

use crate::time::epoch_millis;

verus! {

/// `std::time::SystemTime::elapsed`, asked of the Unix epoch: the whole
/// milliseconds since then, unless the clock stands before it. What a clock
/// shows is left unsaid.
#[verifier::external_body]
fn epoch_elapsed_ms() -> (elapsed: Option<u128>)
{
    std::time::SystemTime::UNIX_EPOCH.elapsed().ok().map(|span| span.as_millis())
}

/// Returns the current time in milliseconds since the Unix epoch, within the
/// range of its type: what [`epoch_millis`] makes of the reading. What the
/// clock reads is left unsaid, and every time in the range may come of it.
pub(crate) fn now_ms() -> (now: u64)
{
    epoch_millis(epoch_elapsed_ms())
}

} // verus!
