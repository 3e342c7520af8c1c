//! The errors that store and registry operations report.
use vstd::prelude::*;
use crate::status::Status;

verus! {

/// What can go wrong with a store or one of its tasks.
#[derive(Debug, PartialEq, Eq)]
pub enum StoreError {
    /// No store file exists at the path.
    StoreNotFound,
    /// The path already holds a valid store.
    StoreAlreadyExists,
    /// The store file's content cannot be read as a store.
    StoreCorrupt,
    /// No task with this id is in the store.
    TaskNotFound { task_id: i32 },
    /// The requested status change is refused: the current status is
    /// terminal, or the requested text names no status.
    InvalidTransition { task_id: i32, current: Status, requested: String },
    /// A read, write or rename failed.
    IOFailure,
}

impl StoreError {
    /// A short description of the error for display.
    pub fn message(&self) -> String {
        match self {
            StoreError::StoreNotFound => "no task store exists at that path".to_string(),
            StoreError::StoreAlreadyExists => "a task store already exists at that path".to_string(),
            StoreError::StoreCorrupt => "the task store cannot be read".to_string(),
            StoreError::TaskNotFound { .. } => "no task has that id".to_string(),
            StoreError::InvalidTransition { .. } => "that status change is not allowed".to_string(),
            StoreError::IOFailure => "reading or writing a file failed".to_string(),
        }
    }
}

} // verus!
