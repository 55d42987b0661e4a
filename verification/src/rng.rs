//! Randomness, behind thin wrappers. Every contract states only what holds
//! of any outcome: the bounds that rand documents for `gen_range`.
use rand::Rng;
use vstd::prelude::*;

verus! {

/// Relies on rand's `Rng::gen_range` over `lo..=hi`: a value uniform in the
/// inclusive range, which is never empty when `lo <= hi`.
#[verifier::external_body]
pub fn rand_i64_between(lo: i64, hi: i64) -> (r: i64)
    requires
        lo <= hi,
    ensures
        lo <= r <= hi,
{
    rand::thread_rng().gen_range(lo..=hi)
}

/// Relies on rand's `Rng::gen_range` over `lo..=hi`: a value uniform in the
/// inclusive range, which is never empty when `lo <= hi`.
#[verifier::external_body]
pub fn rand_u64_between(lo: u64, hi: u64) -> (r: u64)
    requires
        lo <= hi,
    ensures
        lo <= r <= hi,
{
    rand::thread_rng().gen_range(lo..=hi)
}

/// Relies on rand's `Rng::gen_range` over `0..n`: a value uniform below `n`,
/// with `n > 0` keeping the range non-empty.
#[verifier::external_body]
pub fn rand_usize_below(n: usize) -> (r: usize)
    requires
        n > 0,
    ensures
        r < n,
{
    rand::thread_rng().gen_range(0..n)
}

} // verus!
