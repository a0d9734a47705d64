//! Incremental multi-project semantic code indexing: syntax-aware chunking,
//! content-hash change detection, a bounded project registry with LRU
//! eviction, and cross-project result merging.

pub mod chunk;
pub mod digest;
pub mod indexing;
pub mod protocol;
pub mod providers;
pub mod registry;
pub mod search;
pub mod text;
