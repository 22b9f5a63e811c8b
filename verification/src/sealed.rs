//! Keeps the set of collection families and authenticators closed.
use vstd::prelude::*;

verus! {

/// A trait that only types of this crate can name, so that no other crate can implement a trait
/// which has it as a supertrait.
pub trait Sealed {

}

} // verus!
