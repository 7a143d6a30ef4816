//! The clock of the machine.
use std::time::Instant;
use vstd::prelude::*;

verus! {

#[verifier::external_type_specification]
#[verifier::external_body]
pub struct ExInstant(std::time::Instant);

/// Whether the clock gave this moment when it was read.
pub closed spec fn is_now(moment: Instant) -> bool {
    call_ensures(now, (), moment)
}

/// Whether the clock told that `seconds` have passed since a moment.
pub closed spec fn passed(start: Instant, seconds: u64) -> bool {
    call_ensures(seconds_since, (&start,), seconds)
}

/// `Instant::now` reads the clock; nothing is known of the moment.
#[verifier::external_body]
pub(crate) fn now() -> Instant {
    Instant::now()
}

/// `Instant::elapsed` in whole seconds; nothing is known of how much time has passed.
#[verifier::external_body]
pub(crate) fn seconds_since(start: &Instant) -> u64 {
    start.elapsed().as_secs()
}

/// The present moment.
pub(crate) fn present() -> (r: Instant)
    ensures
        is_now(r),
{
    now()
}

/// The seconds since a moment.
pub(crate) fn age(start: &Instant) -> (r: u64)
    ensures
        passed(*start, r),
{
    seconds_since(start)
}

} // verus!
