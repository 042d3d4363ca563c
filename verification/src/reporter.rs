//! The analysis report: its consistency checks and its Markdown form.

pub mod json_report;
pub mod markdown;
