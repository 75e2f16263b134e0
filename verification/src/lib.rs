//! Yearly anniversaries: reading a dated record and counting down to its next occurrence.

pub mod anni;
pub mod date;
pub mod report;
pub mod text;

pub use anni::{Anniversary, AnnoDiff, DiaryErr, ParseFailure};
pub use date::Date;
pub use report::transform;
