//! An ingestion-and-retrieval pipeline for text documents and their vector
//! embeddings: alignment checking, record building, collection lifecycle,
//! idempotent bulk upsert, and similarity queries against an indexed store.
pub mod document;
pub mod embedding;
pub mod errors;
pub mod index;
pub mod orchestrator;
pub mod record;
pub mod views;
