//! The clock of the machine.

use vstd::prelude::*;

verus! {

/// Reads the clock with `chrono::Local::now` and takes the seconds since the
/// start of 1970 from it with `DateTime::timestamp`. Nothing is claimed of the
/// second that comes back: two calls may differ in any way. `chrono` panics
/// where the clock of the machine stands before 1970.
#[verifier::external_body]
pub(crate) fn current_second() -> i64 {
    chrono::Local::now().timestamp()
}

} // verus!
