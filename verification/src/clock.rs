use vstd::prelude::*;
use crate::decimal::{decimal, u64_to_decimal};

verus! {

/// Calls `std::time::SystemTime::now` and reads it as whole seconds since the Unix epoch
/// (zero for a clock before the epoch). Nothing is claimed of the value: it depends on
/// the machine's clock.
#[verifier::external_body]
pub(crate) fn unix_time_secs() -> (t: u64) {
    std::time::SystemTime::now().duration_since(std::time::UNIX_EPOCH).unwrap_or_default().as_secs()
}

/// The current time as decimal seconds since the Unix epoch.
pub fn timestamp_now() -> (s: String)
    ensures
        exists|t: u64| s@ == decimal(t as nat),
{
    let t = unix_time_secs();
    u64_to_decimal(t)
}

} // verus!
