use vstd::prelude::*;

use rand::Rng;

verus! {

/// Relies on `rand::Rng::gen_range` on `rand::thread_rng()`: for the range
/// `0..n`, which must not be empty (it panics on an empty range), a value in
/// that range.
#[verifier::external_body]
pub(crate) fn random_below(n: u64) -> (r: u64)
    requires
        n > 0,
    ensures
        r < n,
{
    rand::thread_rng().gen_range(0..n)
}

/// Relies on `rand::random::<bool>()`: a coin flip. Nothing is promised of
/// its outcome.
#[verifier::external_body]
pub(crate) fn coin_flip() -> bool {
    rand::random::<bool>()
}

/// A value drawn from `lo..=hi`.
pub(crate) fn random_between(lo: i32, hi: i32) -> (r: i32)
    requires
        lo <= hi,
    ensures
        lo <= r <= hi,
{
    let span: u64 = (hi as i64 - lo as i64 + 1) as u64;
    let offset = random_below(span);
    (lo as i64 + offset as i64) as i32
}

/// An index drawn from `0..n`.
pub(crate) fn random_index(n: usize) -> (r: usize)
    requires
        n > 0,
    ensures
        r < n,
{
    random_below(n as u64) as usize
}

} // verus!
