//! Core of a visual-similarity search service: per-collection vector
//! indices with soft delete and compaction, a deduplicating work queue,
//! and a registry of named collections.
//!
//! Vectors are held as fixed-length sequences of `i32` components (an
//! embedding is quantized by the caller before it reaches the library);
//! distances are squared Euclidean distances computed in exact integer
//! arithmetic, capped at the width of the result type.

pub mod app;
pub mod db;
pub mod errors;
pub mod events;
pub mod models;
pub mod pipeline;
pub mod utils;
pub mod work_queue;
