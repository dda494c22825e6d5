use vstd::prelude::*;

verus! {

/// Relies on `std::time::SystemTime::now` (read through
/// `duration_since(UNIX_EPOCH)`): the wall clock, in whole milliseconds
/// since the Unix epoch, or 0 should the clock read before the epoch.
/// Nothing is promised of the value: the clock may move at any rate, and
/// two reads may differ in any way.
#[verifier::external_body]
pub(crate) fn now_millis() -> u64 {
    match std::time::SystemTime::now().duration_since(std::time::UNIX_EPOCH) {
        Ok(d) => d.as_millis() as u64,
        Err(_) => 0,
    }
}

} // verus!
