//! Wall-clock timing of an encode run: a clock reading is taken before the
//! encode and the elapsed time is reported in milliseconds afterwards.

use vstd::prelude::*;

verus! {

#[verifier::external_type_specification]
#[verifier::external_body]
pub struct ExSystemTime(std::time::SystemTime);

/// Relies on std::time::SystemTime::now for the clock reading. Nothing can be
/// promised of the time it returns.
#[verifier::external_body]
fn now() -> std::time::SystemTime {
    std::time::SystemTime::now()
}

/// A clock reading taken when an encode run starts.
pub fn start() -> std::time::SystemTime {
    now()
}

/// The milliseconds in an elapsed time of `secs` whole seconds plus
/// `subsec_nanos` nanoseconds.
pub fn elapsed_millis(secs: u64, subsec_nanos: u32) -> (r: u64)
    requires
        secs * 1000 + 4295 <= u64::MAX,
    ensures
        r == subsec_nanos as int / 1000000 + secs * 1000,
{
    subsec_nanos as u64 / 1000000 + secs * 1000
}

} // verus!
