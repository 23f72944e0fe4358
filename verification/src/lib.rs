//! Verified per-file summary statistics over gzip-compressed FASTQ files.
//!
//! The library decodes a multi-member gzip byte stream, parses the FASTQ
//! record grammar, and folds the records into exact per-file statistics.
//! Quality means are kept as exact integer fractions; callers that need
//! floating-point values divide at the edge.

pub mod config;
pub mod fastq;
pub mod gz;
pub mod hist;
pub mod laws;
pub mod pipeline;
pub mod stats;
