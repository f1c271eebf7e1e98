//! Wall-clock time.
use vstd::prelude::*;

verus! {

/// Seconds since the Unix epoch (0 if the clock is before it). The value
/// depends on the machine's clock: nothing is stated of it.
#[verifier::external_body]
pub(crate) fn now_secs() -> u64 {
    std::time::SystemTime::now().duration_since(std::time::UNIX_EPOCH).map(|d| d.as_secs()).unwrap_or(0)
}

} // verus!
