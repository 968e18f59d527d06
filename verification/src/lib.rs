//! An ephemeral, in-memory-indexed blob store core: reference-counted
//! immutable byte buffers (`Blob`), non-copying sub-range views
//! (`ByteRangeView`), a bounded transfer chunker (`ArcBody`), a spooling
//! ingestion pipeline (`BlobIngest`), a path-to-blob directory (`BlobStore`),
//! and byte-range negotiation.

pub mod blob;
pub mod body;
pub mod ingest;
pub mod order;
pub mod range;
pub mod store;
