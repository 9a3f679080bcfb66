//! The error taxonomy of the service.

use vstd::prelude::*;

verus! {

/// An error surfaced by a synchronous request path or recorded as the
/// outcome of an asynchronous ingestion job.
#[derive(Clone, Copy, Debug, PartialEq, Eq, Structural)]
pub enum ServiceError {
    /// A referenced collection does not exist where one is required.
    Validation,
    /// The embeddings provider failed to turn an image into a vector.
    Extraction,
    /// Exclusive access to a shared resource could not be acquired.
    Concurrency,
    /// A vector's length disagrees with the collection's established
    /// dimension.
    DimensionMismatch { expected: usize, actual: usize },
}

} // verus!
