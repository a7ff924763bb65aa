//! The one source of randomness: integer range sampling from the `rand`
//! crate, behind a single trusted wrapper.

use vstd::prelude::*;

verus! {

/// Relies on `rand::thread_rng` and `rand::Rng::gen_range`: `gen_range` on an
/// `i64` half-open range panics only when the range is empty (excluded by the
/// precondition) and otherwise returns a value inside the range. Nothing more
/// is assumed — in particular, nothing about the distribution.
#[verifier::external_body]
pub fn rand_range(lo: i64, hi: i64) -> (r: i64)
    requires
        lo < hi,
    ensures
        lo <= r < hi,
{
    rand::Rng::gen_range(&mut rand::thread_rng(), lo..hi)
}

} // verus!
