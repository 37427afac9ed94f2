//! What cannot be named from outside the library.

use vstd::prelude::*;

verus! {

/// Marks the types that `DeOption` is implemented for; as the trait cannot be
/// named from outside, no other type can be given that mark.
pub trait Sealed {
}

impl<T> Sealed for Option<T> {
}

} // verus!
