//! An in-memory document catalog: documents with metadata, pluggable
//! processors that validate them, and a manager that stores documents and
//! runs linear scans and batch processing over them.
pub mod document;
pub mod manager;
pub mod processor;
pub mod text;
