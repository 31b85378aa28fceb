//! Vector retrieval and indexing for a corpus of ingested documents.
//!
//! Chunk embeddings live in three places: a durable embeddings table (the
//! source of truth), a remote managed similarity-search service, and a local
//! approximate-nearest-neighbor index serialized to a blob. This crate holds
//! the verified core: the vector-id codec, the query engine that collapses
//! chunk hits into ranked documents, the coordinator for dual-write ingestion
//! and deletion, and the bounded, resumable rebuild of the local index.

pub mod models;
pub mod vector_id;
pub mod query;
pub mod local_index;
pub mod rebuild;
pub mod coordinator;
pub mod embed;
pub mod content;
