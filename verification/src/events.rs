//! The messages between the controller and the workers.
use vstd::prelude::*;
use crate::worker::WorkerId;

verus! {

/// What the controller tells a worker.
pub enum ControlToWorkerEvent<T> {
    /// Leave the worker's loop.
    Stop,
    /// A check that the worker still listens; it asks for nothing.
    KeepAlive,
    /// Run the enclosed task, then the tasks that wait in the queue.
    RunTask(T),
}

/// What a worker, a running task or the task queue's owner tells the
/// controller.
pub enum WorkerToControlEvent<T> {
    /// The worker with this id has run out of tasks and is free again.
    Complete(WorkerId),
    /// Add the enclosed task to the queue.
    AddTask(T),
    /// Drop every waiting task and stop taking new ones.
    AbortTaskChain,
    /// Finish once every task has run.
    Stop,
}

} // verus!
