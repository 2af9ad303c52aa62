//! The errors of the task queue.
use vstd::prelude::*;

verus! {

/// What can go wrong in the task queue.
#[derive(Debug, PartialEq, Eq)]
pub enum Error {
    /// A worker's thread was joined twice.
    EmptyWorkerThreadHandle,
    /// The controller's thread was joined twice.
    EmptyControllerThreadHandle,
    /// A worker with this id is not known to the controller.
    WorkerNotFound { id: usize },
    /// A lock was poisoned by a thread that panicked while holding it.
    PoisonError { description: String },
    /// The controller no longer receives events.
    TaskQueueSendError { explanation: String },
}

} // verus!
