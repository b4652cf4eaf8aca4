//! The clock that the waits between attempts go by. Under test it can be
//! made to stand still, and then no wait is worth making.

use vstd::prelude::*;

verus! {

/// A point in time, as `tokio` measures it.
#[verifier::external_type_specification]
#[verifier::external_body]
pub struct ExInstant(tokio::time::Instant);

/// `tokio::time::Instant::now`: the present moment on tokio's clock. Nothing
/// is claimed of it.
#[verifier::external_body]
fn now() -> (instant: tokio::time::Instant) {
    tokio::time::Instant::now()
}

/// The `==` of `tokio::time::Instant`. Nothing is claimed of it.
#[verifier::external_body]
fn same_instant(first: &tokio::time::Instant, second: &tokio::time::Instant) -> (same: bool) {
    first == second
}

/// Whether the clock stands still: two readings of it, one after the other,
/// give the same moment. What comes back depends on the clock, so nothing is
/// promised of it.
pub fn clock_is_paused() -> (paused: bool) {
    let first = now();
    let second = now();
    same_instant(&first, &second)
}

/// The seconds to sleep for a wait of `seconds`: none where the clock stands
/// still, all of them otherwise.
pub fn instrumented_sleep(seconds: u64, clock_paused: bool) -> (sleep: Option<u64>)
    ensures
        sleep == if clock_paused {
            None
        } else {
            Some(seconds)
        },
{
    if clock_paused {
        None
    } else {
        Some(seconds)
    }
}

} // verus!
