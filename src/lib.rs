//! Task tracking: a task model with a guarded status workflow, a file-backed
//! store of tasks with its byte format, and the registry of the active store.
pub mod error;
pub mod status;
pub mod store;
pub mod codec;
pub mod lifecycle;
pub mod registry;
