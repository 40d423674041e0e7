//! Type-safe identifiers for the problems of an online judge: problem types,
//! statement languages, and localized and unlocalized problem ids.
pub mod decimal;
mod error;
pub mod laws;
pub mod problem;
pub mod problem_id_types;
mod sealing;

pub use error::Error;
pub use error::Result;
pub use problem::ProblemId;
pub use problem::ProblemLanguage;
pub use problem::ProblemType;
