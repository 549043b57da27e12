//! The record logic of a small task manager: tasks, queries, the SQL text and
//! parameters the store runs, and reading rows back into tasks.
pub mod encoding;
pub mod task;
pub mod store;
