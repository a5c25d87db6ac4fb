//! A personal task tracker's core: the task record, its encoding into the
//! fields of a key-value store, identifier allocation, filtering and summaries.
pub mod model;
pub mod text;
pub mod codec;
pub mod query;
pub mod summary;
