//! The one place the crate asks what time it is.

use vstd::prelude::*;

verus! {

/// Relies on chrono::Utc::now, then `timestamp()`: the current unix
/// timestamp in seconds. Nothing is promised of the value; callers hand
/// it to functions whose contracts hold for every timestamp. On a
/// system clock set before the unix epoch, `Utc::now` aborts the
/// process rather than return.
#[verifier::external_body]
pub fn current_timestamp() -> (r: i64) {
    chrono::Utc::now().timestamp()
}

/// The current timestamp narrowed into `u64`, as token arithmetic uses
/// it; a negative reading, which the clock source does not in fact
/// return, would be clamped to zero. The bound leaves room to add a
/// token lifetime without overflow.
pub fn current_timestamp_u64() -> (r: u64)
    ensures
        r <= 0x7fff_ffff_ffff_ffff,
{
    let t = current_timestamp();
    if t < 0 {
        0
    } else {
        t as u64
    }
}

} // verus!
