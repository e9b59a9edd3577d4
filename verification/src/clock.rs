//! The monotonic clock that time-based decisions read. Every decision that
//! depends on time is also available as a function of an explicit reading
//! in milliseconds; the readings themselves are not promised anything.

use vstd::prelude::*;
use std::time::Instant;

verus! {

#[verifier::external_type_specification]
#[verifier::external_body]
pub struct ExInstant(Instant);

/// `Instant::now`: a reading of the monotonic clock; nothing is stated of it.
pub assume_specification[ Instant::now ]() -> Instant;

/// `Instant::elapsed` on `origin`, in whole milliseconds (saturating at
/// `u64::MAX`). The value depends on the time of the call; nothing is
/// stated of it.
#[verifier::external_body]
pub(crate) fn millis_since(origin: &Instant) -> u64 {
    u64::try_from(origin.elapsed().as_millis()).unwrap_or(u64::MAX)
}

} // verus!
