//! Streaming quality-control statistics for aligned sequencing reads.
//!
//! The library folds a stream of read records into a single aggregate
//! summary: a histogram of fragment insert sizes and, per 1-based
//! sequencing cycle, a histogram of alignment operation kinds split by
//! mate-in-pair. The cycle-attribution engine lives in [`trace`], the
//! histogram shapes in [`histogram`], the accumulator in [`summary`], and
//! the stream driver's decision policy in [`driver`].

pub mod driver;
pub mod histogram;
pub mod summary;
pub mod trace;
