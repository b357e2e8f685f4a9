//! Error taxonomy and shared schema types for the pipeline.
use vstd::prelude::*;

verus! {

/// The distance metric a collection ranks vectors by.
#[derive(Clone, Copy, PartialEq, Eq, Structural, Debug)]
pub enum DistanceMetric {
    Cosine,
    Dot,
    Euclidean,
}

/// The vector schema a collection is created with and keeps for its lifetime.
#[derive(Clone, Copy, PartialEq, Eq, Structural, Debug)]
pub struct CollectionSchema {
    pub dimension: usize,
    pub metric: DistanceMetric,
}

/// Outcome of an idempotent collection creation.
#[derive(Clone, Copy, PartialEq, Eq, Structural, Debug)]
pub enum CollectionState {
    Created,
    AlreadyExists,
}

/// Typed failures of the pipeline; a failing step aborts the run.
#[derive(Debug)]
pub enum PipelineError {
    /// The embedding engine returned a vector count that differs from the
    /// document count; both counts are carried.
    Alignment { documents: usize, embeddings: usize },
    /// A metadata value could not be represented as a payload scalar; the
    /// offending field is named.
    PayloadEncoding { field: String },
    /// A collection exists with a schema that conflicts with the requested
    /// one, or a vector does not fit the collection's schema.
    SchemaMismatch { expected: CollectionSchema, actual: CollectionSchema },
    /// The index service failed a write.
    IndexWrite,
    /// The index service failed a query.
    IndexQuery,
    /// The embedding engine failed; no partial output is trusted.
    Engine,
}

} // verus!
