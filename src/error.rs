use vstd::prelude::*;

use crate::text::join;

verus! {

/// The error kinds that the service reports.
#[derive(Clone, Debug)]
pub enum PapError {
    /// An unknown pipeline, job, step or object.
    NotFound(String),
    /// The store failed.
    Database(String),
    /// A submission failed validation.
    Configuration(String),
    /// A step returned failure.
    Execution(String),
    /// An unexpected condition.
    Internal(String),
}

/// A pipeline names a command that the executor does not have.
#[derive(Clone, Debug)]
pub enum ExecutorError {
    CommandNotFound(String),
}


impl PapError {
    /// The kind of the error in words, then its detail.
    pub fn message(&self) -> (r: String)
        ensures
            r@ == match self {
                PapError::NotFound(m) => "Resource not found: "@ + m@,
                PapError::Database(m) => "Database error: "@ + m@,
                PapError::Configuration(m) => "Invalid configuration: "@ + m@,
                PapError::Execution(m) => "Execution error: "@ + m@,
                PapError::Internal(m) => "Internal error: "@ + m@,
            },
    {
        match self {
            PapError::NotFound(m) => join("Resource not found: ", m.as_str()),
            PapError::Database(m) => join("Database error: ", m.as_str()),
            PapError::Configuration(m) => join("Invalid configuration: ", m.as_str()),
            PapError::Execution(m) => join("Execution error: ", m.as_str()),
            PapError::Internal(m) => join("Internal error: ", m.as_str()),
        }
    }
}

impl ExecutorError {
    pub fn message(&self) -> (r: String)
        ensures
            r@ == match self {
                ExecutorError::CommandNotFound(c) => "Executor does not have command: "@ + c@,
            },
    {
        match self {
            ExecutorError::CommandNotFound(c) => join("Executor does not have command: ", c.as_str()),
        }
    }
}

} // verus!
