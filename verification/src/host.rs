//! Trusted boundary to the host: the monotonic wall clock and the entropy
//! source. Everything here is believed, not verified; the callers state what
//! holds whatever these return.

use vstd::prelude::*;

verus! {

#[verifier::external_type_specification]
#[verifier::external_body]
pub struct ExInstant(std::time::Instant);

/// Relies on std::time::Instant::now: an opaque timestamp of the host's
/// monotonic clock. Nothing can be promised of the clock's reading.
#[verifier::external_body]
pub(crate) fn now() -> std::time::Instant {
    std::time::Instant::now()
}

/// Relies on std::time::Instant::now and Instant::duration_since: whether at
/// least one sixtieth of a second of wall-clock time has passed since `last`.
/// The answer depends on the clock, so nothing can be promised of it.
#[verifier::external_body]
pub(crate) fn tick_due(last: &std::time::Instant) -> bool {
    std::time::Instant::now().duration_since(*last)
        >= std::time::Duration::from_micros(1_000_000 / 60)
}

/// Relies on rand::random: one byte drawn from the thread-local generator.
/// Nothing can be promised of a random value.
#[verifier::external_body]
pub(crate) fn random_byte() -> u8 {
    rand::random::<u8>()
}

} // verus!
