//! A directory-tree scanning core: a size-annotated file hierarchy, the
//! single-pass tree builder that aggregates directory sizes bottom-up, the
//! background-task lifecycle with cooperative cancellation, and a document
//! codec for the finished tree.

pub mod builder;
pub mod codec;
pub mod entry;
pub mod node;
pub mod order;
pub mod task;
pub mod walker;
