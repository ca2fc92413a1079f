use vstd::prelude::*;

verus! {

/// Relies on `fastrand::i64` over `lo..hi`: a draw from the half-open range,
/// which panics only when the range is empty.
#[verifier::external_body]
pub(crate) fn random_i64(lo: i64, hi: i64) -> (r: i64)
    requires
        lo < hi,
    ensures
        lo <= r < hi,
{
    fastrand::i64(lo..hi)
}

/// Relies on `fastrand::u8` over `lo..=hi`: a draw from the closed range,
/// which panics only when the range is empty.
#[verifier::external_body]
pub(crate) fn random_u8(lo: u8, hi: u8) -> (r: u8)
    requires
        lo <= hi,
    ensures
        lo <= r <= hi,
{
    fastrand::u8(lo..=hi)
}

/// Relies on `fastrand::usize` over `lo..hi`: a draw from the half-open range,
/// which panics only when the range is empty.
#[verifier::external_body]
pub(crate) fn random_usize(lo: usize, hi: usize) -> (r: usize)
    requires
        lo < hi,
    ensures
        lo <= r < hi,
{
    fastrand::usize(lo..hi)
}

} // verus!
