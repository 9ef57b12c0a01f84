//! The seal on the library's traits that are not extension points: a question kind, a
//! question shape, and what a rubric position accepts.

use vstd::prelude::*;

verus! {

/// Implemented only inside this crate; a trait that requires it cannot be implemented
/// elsewhere.
pub trait Sealed {}

} // verus!
