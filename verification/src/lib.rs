//! Verified core of a DynamoDB batch-writing client: request generation,
//! work partitioning, result aggregation and command parsing.

pub mod error;
pub mod request;
pub mod aggregate;
pub mod plan;
pub mod sequential;
pub mod summary;
pub mod delete;
pub mod command;
pub mod report;
pub mod decimal;
mod seqs;
