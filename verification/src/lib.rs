//! Batch grading of submissions: narrowing a roster and an archive to one
//! exercise group, keeping a grade ledger, and planning the feedback archive.

pub mod error;
pub mod pattern;
pub mod text;
pub mod seqs;
pub mod gradingtable;
pub mod config;
pub mod args;
pub mod plan;
pub mod repack;
pub mod grade;
pub mod unpack;
pub mod fetch;
pub mod json;
pub mod reply;
pub mod setup;
