//! Execution settings.
use vstd::prelude::*;

verus! {

/// Settings related to execution behavior.
#[derive(Debug, Clone, PartialEq, Eq)]
pub struct ExecutionSettings {
    /// The timeout of an execution, in milliseconds, if any.
    pub timeout: Option<u64>,
}

impl ExecutionSettings {
    /// Settings with the given timeout in milliseconds.
    pub fn new(timeout: Option<u64>) -> (r: ExecutionSettings)
        ensures
            r.timeout == timeout,
    {
        ExecutionSettings { timeout }
    }

    /// Settings with a timeout of `millis` milliseconds.
    pub fn from_timeout_millis(millis: u64) -> (r: ExecutionSettings)
        ensures
            r.timeout == Some(millis),
    {
        ExecutionSettings { timeout: Some(millis) }
    }

    /// The timeout in milliseconds, if set.
    pub fn timeout_millis(&self) -> (r: Option<u64>)
        ensures
            r == self.timeout,
    {
        self.timeout
    }
}

} // verus!
