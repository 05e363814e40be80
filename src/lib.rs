//! Fetching, classifying and batching smart-contract metadata records.

pub mod text;
pub mod models;
pub mod classify;
pub mod etherscan;
pub mod pipeline;
pub mod importer;
pub mod stats;
