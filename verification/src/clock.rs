use vstd::prelude::*;

verus! {

/// Relies on `std::time::SystemTime::now`: the current wall-clock time, read
/// as whole seconds since the Unix epoch (0 if the clock reads earlier than
/// the epoch). Nothing is assumed of the reading: every caller states what
/// holds of an arbitrary timestamp.
#[verifier::external_body]
fn now_unix_seconds() -> u64 {
    match std::time::SystemTime::now().duration_since(std::time::UNIX_EPOCH) {
        Ok(d) => d.as_secs(),
        Err(_) => 0,
    }
}

/// The current wall-clock time in whole seconds since the Unix epoch. The
/// value depends on the clock, so nothing is promised of it.
pub fn get_timestamp() -> u64 {
    now_unix_seconds()
}

} // verus!
