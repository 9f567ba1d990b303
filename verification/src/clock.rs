//! What is read from the clocks of the machine.

use crate::duration::MAX_NANOS;
use vstd::prelude::*;

verus! {

/// A reading of the monotonic clock, `std::time::Instant`.
#[verifier::external_type_specification]
#[verifier::external_body]
pub struct ExInstant(std::time::Instant);

/// A reading of the calendar clock, `std::time::SystemTime`.
#[verifier::external_type_specification]
#[verifier::external_body]
pub struct ExSystemTime(std::time::SystemTime);

/// `std::time::Instant::now`. Nothing is claimed of the reading.
#[verifier::external_body]
pub(crate) fn instant_now() -> std::time::Instant {
    std::time::Instant::now()
}

/// `std::time::Instant::elapsed`, in nanoseconds. How long that is depends on when
/// it is asked: claimed is only what holds of every `std::time::Duration`, that it is
/// no longer than the longest.
#[verifier::external_body]
pub(crate) fn elapsed(since: &std::time::Instant) -> (r: u128)
    ensures
        r <= MAX_NANOS,
{
    since.elapsed().as_nanos()
}

/// `std::time::SystemTime::now`. Nothing is claimed of the reading.
#[verifier::external_body]
fn system_now() -> std::time::SystemTime {
    std::time::SystemTime::now()
}

/// `std::time::SystemTime::duration_since`, asked for the Unix epoch, in nanoseconds;
/// nothing if the reading is before it. Claimed is only what holds of every
/// `std::time::Duration`, that it is no longer than the longest.
#[verifier::external_body]
fn since_epoch(at: &std::time::SystemTime) -> (r: Option<u128>)
    ensures
        r matches Some(nanos) ==> nanos <= MAX_NANOS,
{
    at.duration_since(std::time::UNIX_EPOCH).ok().map(|d| d.as_nanos())
}

/// The nanoseconds since the Unix epoch, or nothing if the machine's clock stands
/// before it.
pub(crate) fn unix_nanos() -> (r: Option<u128>)
    ensures
        r matches Some(nanos) ==> nanos <= MAX_NANOS,
{
    since_epoch(&system_now())
}

} // verus!
