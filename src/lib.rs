//! Audits the dialogue text of line-oriented script files for statements
//! whose wrapped row count exceeds a configured budget.

pub mod classify;
pub mod measure;
pub mod scan;
pub mod settings;
pub mod tags;
pub mod text;
