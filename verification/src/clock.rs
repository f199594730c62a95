//! Wall-clock access. The clock is an outside effect: nothing is assumed
//! of the value it returns, and every function whose contract must pin a
//! time takes the time as an argument instead.

use vstd::prelude::*;

verus! {

/// Relies on chrono: `Utc::now().timestamp()` returns the current wall
/// clock as whole seconds since the Unix epoch. Nothing is assumed of the
/// value; two calls may return anything. The underlying call aborts the
/// process when the host clock is set before the epoch — an environmental
/// condition no input can exclude.
#[verifier::external_body]
pub fn now_timestamp() -> i64 {
    chrono::Utc::now().timestamp()
}

} // verus!
