//! The argument shapes of the task commands, as plain data.
use vstd::prelude::*;

verus! {

/// The target of a command that names one task.
#[derive(Debug, PartialEq, Eq, Structural, Clone, Copy)]
pub struct TaskId {
    pub id: u32,
}

/// The arguments of the listing command: an optional filter.
#[derive(Debug, Clone)]
pub struct ListTasks {
    pub filter: Option<String>,
}

/// The target of the completion command.
#[derive(Debug, PartialEq, Eq, Structural, Clone, Copy)]
pub struct CompleteTask {
    pub id: u32,
}

} // verus!
