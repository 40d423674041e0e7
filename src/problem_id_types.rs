//! The kinds of [`ProblemId`](crate::ProblemId): unlocalized and localized.
pub use crate::problem::Localized;
pub use crate::problem::ProblemIdType;
pub use crate::problem::Unlocalized;
