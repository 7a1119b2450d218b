use vstd::prelude::*;

verus! {

/// The monotonic clock reading kept as a manager's creation time.
#[verifier::external_type_specification]
#[verifier::external_body]
pub struct ExInstant(std::time::Instant);

/// Relies on `std::time::Instant::now`: it reads the clock. Nothing is stated
/// of the reading.
pub assume_specification[ std::time::Instant::now ]() -> std::time::Instant;

/// Relies on `num_cpus::get`: the number of logical cores available to this
/// process, which its documentation says is always at least one.
pub assume_specification[ num_cpus::get ]() -> (r: usize)
    ensures
        r >= 1,
;

} // verus!
