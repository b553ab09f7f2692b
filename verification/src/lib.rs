//! The selective-I/O layer of a columnar table scan: zone-map pruning
//! decides which row groups and pages can be skipped, and for the rest
//! an in-memory row group fetches exactly the byte ranges a projection
//! and row selection need, assembling them for page-level decoding.

pub mod buffer;
pub mod chunk;
pub mod error;
pub mod metadata;
pub mod pruner;
pub mod row_group;
pub mod runtime;
pub mod selection;
pub mod serialize;
pub mod trim;
