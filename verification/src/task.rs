//! What a task reports, and the handle through which a running task adds new tasks.
use vstd::prelude::*;
use std::sync::mpsc::Sender;
use crate::channel::{send_event, SendReceipt};
use crate::events::WorkerToControlEvent;

verus! {

/// What a task asks of the task queue once it has run.
#[derive(Copy, Clone, Debug, PartialEq, Eq, Structural)]
pub enum TaskControlCommand {
    /// Go on as before.
    Continue,
    /// Drop the waiting tasks and take no new ones.
    Abort,
}

/// The handle through which a running task adds new tasks to the queue.
#[verifier::reject_recursive_types(T)]
pub struct TaskReceiver<T> {
    channel: Sender<WorkerToControlEvent<T>>,
}

impl<T> TaskReceiver<T> {
    /// The channel on which the handle reaches the controller.
    pub closed spec fn channel(&self) -> Sender<WorkerToControlEvent<T>> {
        self.channel
    }

    /// A handle that sends the tasks it is given on `channel`.
    pub fn new(channel: Sender<WorkerToControlEvent<T>>) -> (r: Self)
        ensures
            r.channel() == channel,
    {
        TaskReceiver { channel }
    }

    /// Hands `task`, in an `AddTask` message, to the handle's channel, which
    /// reaches the controller.  Returns the receipt of that call of `send`:
    /// the channel, the message, and whether the channel took it.  Whether the
    /// controller still listens is up to its thread: a task that arrives after
    /// the controller has finished is dropped.
    pub fn add_task(&self, task: T) -> (handed: SendReceipt<WorkerToControlEvent<T>>)
        ensures
            handed.channel() == self.channel(),
            handed.event() == WorkerToControlEvent::AddTask(task),
    {
        let (_delivered, receipt) = send_event(&self.channel, WorkerToControlEvent::AddTask(task));
        receipt
    }
}

} // verus!
