use vstd::prelude::*;

verus! {

/// Calls `fastrand::i32(0..n)`: fastrand returns an integer drawn from the range,
/// so the result lies in `[0, n)`; it panics on an empty range, which `requires`
/// leaves out. Which value comes back is left open: it is random.
#[verifier::external_body]
pub(crate) fn fastrand_i32(n: i32) -> (r: i32)
    requires
        n > 0,
    ensures
        0 <= r < n,
{
    fastrand::i32(0..n)
}

/// Calls `fastrand::i64(0..n)`: a random integer in `[0, n)`; fastrand panics on an
/// empty range, which `requires` leaves out. The value itself is left open.
#[verifier::external_body]
pub(crate) fn fastrand_i64(n: i64) -> (r: i64)
    requires
        n > 0,
    ensures
        0 <= r < n,
{
    fastrand::i64(0..n)
}

/// Calls `fastrand::u8(0..n)`: a random byte in `[0, n)`; fastrand panics on an empty
/// range, which `requires` leaves out. The value itself is left open.
#[verifier::external_body]
pub(crate) fn fastrand_u8(n: u8) -> (r: u8)
    requires
        n > 0,
    ensures
        0 <= r < n,
{
    fastrand::u8(0..n)
}

/// Calls `rand::Rng::gen_range(0..=high)` on `rand::thread_rng()`: a random byte in
/// `[0, high]` (the range is never empty). The value itself is left open.
#[verifier::external_body]
pub(crate) fn thread_rng_u8_up_to(high: u8) -> (r: u8)
    ensures
        r <= high,
{
    rand::Rng::gen_range(&mut rand::thread_rng(), 0..=high)
}

} // verus!
