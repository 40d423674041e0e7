//! Keeps the kinds of problem ids a closed set: only this crate can name
//! [`Sealed`], so only this crate can implement
//! [`ProblemIdType`](crate::problem_id_types::ProblemIdType).
use vstd::prelude::*;

verus! {

/// Implemented by the kinds of problem ids, and by nothing else.
pub trait Sealed {

}

} // verus!
