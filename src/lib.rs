//! Turns the pages of scanned or rendered PDF manuals into retrieval-ready
//! Markdown: per-page strategy, text normalisation, table and low-value page
//! detection, the decisions of the vision-model retry engine, and the
//! deterministic reassembly of enrichment results into the Markdown document
//! and its image catalog.

pub mod cleanup;
pub mod config;
pub mod export;
pub mod fmt;
pub mod headers;
pub mod jobs;
pub mod ordering;
pub mod pipeline;
pub mod progress;
pub mod prompts;
pub mod provider;
pub mod storage;
pub mod table;
pub mod text;
pub mod trash;
