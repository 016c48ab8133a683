use vstd::prelude::*;

verus! {

/// Relies on rand::random_range over the half-open range `lo..hi`: it
/// panics only on an empty range, which the precondition rules out, and
/// otherwise returns a value drawn from inside that range. Nothing more is
/// assumed of the draw: every caller is verified for every value the range
/// admits.
#[verifier::external_body]
pub(crate) fn rand_range(lo: i32, hi: i32) -> (r: i32)
    requires
        lo < hi,
    ensures
        lo <= r < hi,
{
    rand::random_range(lo..hi)
}

/// Relies on rand::random for bool: a coin flip through the thread-local
/// generator. No outcome is promised; callers are verified for both.
#[verifier::external_body]
pub(crate) fn rand_coin() -> bool {
    rand::random::<bool>()
}

} // verus!
