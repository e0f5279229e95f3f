//! Keeps the set of phases closed.
use vstd::prelude::*;

verus! {

/// Implemented by the phases of this crate alone.
pub trait Locked {

}

} // verus!
