//! Erasing of values that must not stay in memory.
use vstd::prelude::*;

use zeroize::Zeroize;

verus! {

/// Calls `Zeroize::zeroize` on an array of bytes.
///
/// Trusted: every byte becomes zero, and the call does not unwind.
#[verifier::external_body]
pub(crate) fn zeroize_bytes<const N: usize>(bytes: &mut [u8; N])
    ensures
        forall|i: int| 0 <= i < N ==> #[trigger] final(bytes)@[i] == 0,
    opens_invariants none
    no_unwind
{
    bytes.zeroize();
}

/// Calls `Zeroize::zeroize` on a `u64`.
///
/// Trusted: the value becomes zero.
#[verifier::external_body]
pub(crate) fn zeroize_u64(value: &mut u64)
    ensures
        *final(value) == 0,
{
    value.zeroize();
}

/// Calls `Zeroize::zeroize` on a `usize`.
///
/// Trusted: the value becomes zero.
#[verifier::external_body]
pub(crate) fn zeroize_usize(value: &mut usize)
    ensures
        *final(value) == 0,
{
    value.zeroize();
}

} // verus!
