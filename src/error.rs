use vstd::prelude::*;

verus! {

/// The errors produced by the crate.
#[derive(Debug, Clone, PartialEq, Eq)]
pub enum Error {
    /// A `char` that is not the letter of any [`ProblemType`](crate::ProblemType).
    NotAProblemType,
    /// A code that is not the code of any [`ProblemLanguage`](crate::ProblemLanguage).
    NotAProblemLanguage,
    /// The given inputs do not make up a valid [`ProblemId`](crate::ProblemId);
    /// the string says why.
    InvalidProblemId(String),
}

/// The `Result` type produced by the crate.
pub type Result<T> = core::result::Result<T, Error>;

} // verus!
