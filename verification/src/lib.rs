//! Core of a small personal task tracker: the task data model, the text
//! codec for the persisted store, the persistence and backup/restore
//! protocol over an explicit store abstraction, and the store locator.
pub mod codec;
pub mod errors;
pub mod locator;
pub mod store;
pub mod task;
pub mod text;
