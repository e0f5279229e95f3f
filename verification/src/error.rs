//! The error that every fallible operation of this crate returns.
use vstd::prelude::*;

verus! {

/// Opaque failure of an AEAD operation.
///
/// It says nothing about the cause on purpose: a caller that rejects a message
/// must not be able to tell a bad tag from a bad length.
#[derive(Clone, Copy, Debug, PartialEq, Eq, Structural)]
pub struct Error;

} // verus!
