//! The wall clock, behind the crate's one trusted boundary.

use vstd::prelude::*;

verus! {

/// Relies on chrono::Utc::now, read as seconds of Unix time.  The value
/// depends on the machine's clock, so nothing is promised of it: callers
/// state what holds of every reading.
#[verifier::external_body]
pub(crate) fn current_unix_time() -> i64 {
    chrono::Utc::now().timestamp()
}

} // verus!
