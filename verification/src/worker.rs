//! What a worker decides: what to do with a message from the controller,
//! what to do once a task has run, and, put together, the worker's whole
//! loop as a machine from its state and the answer to its last action to
//! its next state and action.
//!
//! A worker waits for a message from the controller.  When it is given a
//! task it runs it.  If the task continues, the worker takes the tasks at
//! the back of the shared queue one after the other until the queue is empty
//! or a task aborts.  An aborting task is reported to the controller, and
//! the worker then takes no new task.  At the end the worker tells the
//! controller that it is free again.
use vstd::prelude::*;
use crate::events::{ControlToWorkerEvent, WorkerToControlEvent};
use crate::task::TaskControlCommand;

verus! {

/// The number by which the controller knows a worker.
pub type WorkerId = usize;

/// What a worker does with a message from the controller.
pub enum WorkerStep<T> {
    /// Leave the worker's loop.
    Exit,
    /// Wait for the next message.
    Wait,
    /// Run the enclosed task.
    Execute(T),
}

/// What a worker does with `received`, the message from the controller, or
/// `None` when the controller's end of the channel is gone.
pub fn next_step<T>(received: Option<ControlToWorkerEvent<T>>) -> (r: WorkerStep<T>)
    ensures
        match received {
            None => r is Exit,
            Some(ControlToWorkerEvent::Stop) => r is Exit,
            Some(ControlToWorkerEvent::KeepAlive) => r is Wait,
            Some(ControlToWorkerEvent::RunTask(task)) => r == WorkerStep::Execute(task),
        },
{
    match received {
        None => WorkerStep::Exit,
        Some(ControlToWorkerEvent::Stop) => WorkerStep::Exit,
        Some(ControlToWorkerEvent::KeepAlive) => WorkerStep::Wait,
        Some(ControlToWorkerEvent::RunTask(task)) => WorkerStep::Execute(task),
    }
}

/// What a worker does once a task has run.
#[derive(Copy, Clone, Debug, PartialEq, Eq, Structural)]
pub struct AfterTask {
    /// Tell the controller to drop the waiting tasks.
    pub report_abort: bool,
    /// Take the next task from the shared queue.
    pub take_next: bool,
}

/// What a worker does once a task has run and answered `command`: an
/// aborting task is reported and ends the worker's run of tasks; a
/// continuing task lets the worker take the next task from the queue.
pub fn after_task(command: TaskControlCommand) -> (r: AfterTask)
    ensures
        r.report_abort == (command == TaskControlCommand::Abort),
        r.take_next == (command == TaskControlCommand::Continue),
{
    match command {
        TaskControlCommand::Abort => AfterTask { report_abort: true, take_next: false },
        TaskControlCommand::Continue => AfterTask { report_abort: false, take_next: true },
    }
}

/// Where a worker stands in its loop.
#[derive(Copy, Clone, Debug, PartialEq, Eq, Structural)]
pub enum WorkerState {
    /// Waits for a message from the controller.
    Waiting,
    /// Runs the task that the controller gave it.
    RunningGiven,
    /// Runs a task taken from the shared queue.
    RunningQueued,
    /// Reports that the task the controller gave it aborted.
    AbortingGiven,
    /// Reports that a task taken from the queue aborted.
    AbortingQueued,
    /// Takes the next task from the shared queue.
    Draining,
    /// Tells the controller that it is free again.
    Completing,
    /// Has left its loop.
    Stopped,
}

/// The answer to a worker's last action.
pub enum WorkerInput<T> {
    /// What came from the controller, or `None` when its end is gone.
    Message(Option<ControlToWorkerEvent<T>>),
    /// What the task that ran answered.
    Ran(TaskControlCommand),
    /// What was taken from the shared queue, or `None` when it was empty or
    /// could not be locked.
    Popped(Option<T>),
    /// Whether the controller's channel took the message.
    Sent(bool),
}

/// What a worker does next.
pub enum WorkerAction<T> {
    /// Wait for a message from the controller.
    Receive,
    /// Run the enclosed task.
    Run(T),
    /// Take the task at the back of the shared queue.
    Pop,
    /// Hand the enclosed message to the controller's channel.
    Send(WorkerToControlEvent<T>),
    /// Leave the loop.
    Exit,
}

/// The worker `id`'s next state and action, from `state` and the answer
/// `input` to its last action.  An answer that does not fit the state ends
/// the worker.
pub open spec fn worker_transition<T>(id: WorkerId, state: WorkerState, input: WorkerInput<T>) -> (
    WorkerState,
    WorkerAction<T>,
) {
    match (state, input) {
        (WorkerState::Waiting, WorkerInput::Message(received)) => match received {
            Some(ControlToWorkerEvent::RunTask(task)) => (
                WorkerState::RunningGiven,
                WorkerAction::Run(task),
            ),
            Some(ControlToWorkerEvent::KeepAlive) => (WorkerState::Waiting, WorkerAction::Receive),
            _ => (WorkerState::Stopped, WorkerAction::Exit),
        },
        (WorkerState::RunningGiven, WorkerInput::Ran(command)) => if command
            == TaskControlCommand::Abort {
            (WorkerState::AbortingGiven, WorkerAction::Send(WorkerToControlEvent::AbortTaskChain))
        } else {
            (WorkerState::Draining, WorkerAction::Pop)
        },
        (WorkerState::RunningQueued, WorkerInput::Ran(command)) => if command
            == TaskControlCommand::Abort {
            (WorkerState::AbortingQueued, WorkerAction::Send(WorkerToControlEvent::AbortTaskChain))
        } else {
            (WorkerState::Draining, WorkerAction::Pop)
        },
        (WorkerState::AbortingGiven, WorkerInput::Sent(taken)) => if taken {
            (WorkerState::Completing, WorkerAction::Send(WorkerToControlEvent::Complete(id)))
        } else {
            (WorkerState::Stopped, WorkerAction::Exit)
        },
        (WorkerState::AbortingQueued, WorkerInput::Sent(_)) => (
            WorkerState::Completing,
            WorkerAction::Send(WorkerToControlEvent::Complete(id)),
        ),
        (WorkerState::Draining, WorkerInput::Popped(next)) => match next {
            Some(task) => (WorkerState::RunningQueued, WorkerAction::Run(task)),
            None => (
                WorkerState::Completing,
                WorkerAction::Send(WorkerToControlEvent::Complete(id)),
            ),
        },
        (WorkerState::Completing, WorkerInput::Sent(taken)) => if taken {
            (WorkerState::Waiting, WorkerAction::Receive)
        } else {
            (WorkerState::Stopped, WorkerAction::Exit)
        },
        _ => (WorkerState::Stopped, WorkerAction::Exit),
    }
}

/// The worker `id`'s next state and action, from `state` and the answer
/// `input` to its last action.  A worker starts `Waiting` with the action
/// `Receive`, and its loop ends at the action `Exit`.
pub fn worker_step<T>(id: WorkerId, state: WorkerState, input: WorkerInput<T>) -> (r: (
    WorkerState,
    WorkerAction<T>,
))
    ensures
        r == worker_transition(id, state, input),
{
    match (state, input) {
        (WorkerState::Waiting, WorkerInput::Message(received)) => match next_step(received) {
            WorkerStep::Execute(task) => (WorkerState::RunningGiven, WorkerAction::Run(task)),
            WorkerStep::Wait => (WorkerState::Waiting, WorkerAction::Receive),
            WorkerStep::Exit => (WorkerState::Stopped, WorkerAction::Exit),
        },
        (WorkerState::RunningGiven, WorkerInput::Ran(command)) => if after_task(
            command,
        ).take_next {
            (WorkerState::Draining, WorkerAction::Pop)
        } else {
            (WorkerState::AbortingGiven, WorkerAction::Send(WorkerToControlEvent::AbortTaskChain))
        },
        (WorkerState::RunningQueued, WorkerInput::Ran(command)) => if after_task(
            command,
        ).take_next {
            (WorkerState::Draining, WorkerAction::Pop)
        } else {
            (WorkerState::AbortingQueued, WorkerAction::Send(WorkerToControlEvent::AbortTaskChain))
        },
        (WorkerState::AbortingGiven, WorkerInput::Sent(taken)) => if taken {
            (WorkerState::Completing, WorkerAction::Send(WorkerToControlEvent::Complete(id)))
        } else {
            (WorkerState::Stopped, WorkerAction::Exit)
        },
        (WorkerState::AbortingQueued, WorkerInput::Sent(_)) => (
            WorkerState::Completing,
            WorkerAction::Send(WorkerToControlEvent::Complete(id)),
        ),
        (WorkerState::Draining, WorkerInput::Popped(next)) => match next {
            Some(task) => (WorkerState::RunningQueued, WorkerAction::Run(task)),
            None => (
                WorkerState::Completing,
                WorkerAction::Send(WorkerToControlEvent::Complete(id)),
            ),
        },
        (WorkerState::Completing, WorkerInput::Sent(taken)) => if taken {
            (WorkerState::Waiting, WorkerAction::Receive)
        } else {
            (WorkerState::Stopped, WorkerAction::Exit)
        },
        _ => (WorkerState::Stopped, WorkerAction::Exit),
    }
}

/// A task that aborts makes the worker report the abort, and after the
/// report the worker takes no new task: its next action is to report that it
/// is free, or to leave.
pub proof fn lemma_aborting_task_takes_no_new_task<T>(
    id: WorkerId,
    running: WorkerState,
    taken: bool,
)
    requires
        running == WorkerState::RunningGiven || running == WorkerState::RunningQueued,
    ensures
        ({
            let (state, action) = worker_transition::<T>(
                id,
                running,
                WorkerInput::Ran(TaskControlCommand::Abort),
            );
            &&& action == WorkerAction::<T>::Send(WorkerToControlEvent::AbortTaskChain)
            &&& {
                let (next, next_action) = worker_transition::<T>(id, state, WorkerInput::Sent(taken));
                &&& next_action is Send || next_action is Exit
                &&& next == WorkerState::Completing || next == WorkerState::Stopped
            }
        }),
{
}

/// A worker that has been given a task waits for the controller again only
/// after telling it that it is free: from any state but `Waiting` and
/// `Completing`, no answer leads back to `Waiting`, and from `Completing`
/// only the taking of the `Complete` message does.
pub proof fn lemma_worker_waits_only_after_completing<T>(
    id: WorkerId,
    state: WorkerState,
    input: WorkerInput<T>,
)
    requires
        state != WorkerState::Waiting,
    ensures
        worker_transition(id, state, input).0 == WorkerState::Waiting ==> state
            == WorkerState::Completing && input == WorkerInput::<T>::Sent(true),
{
}

/// Every run of tasks ends with the worker telling the controller that it
/// is free, unless a report to the controller is not taken after the task
/// the controller gave it aborted: when the queue is empty, and after a task
/// taken from the queue aborts, whatever became of the abort report, the
/// worker's next action is to send `Complete(id)`; after the given task
/// aborts, it does so when the abort report was taken, and leaves otherwise.
/// Once `Complete(id)` is taken, the worker waits for the controller again.
pub proof fn lemma_every_run_reports_completion<T>(id: WorkerId, taken: bool)
    ensures
        worker_transition::<T>(id, WorkerState::Draining, WorkerInput::Popped(None)) == (
            WorkerState::Completing,
            WorkerAction::<T>::Send(WorkerToControlEvent::Complete(id)),
        ),
        ({
            let (reporting, report) = worker_transition::<T>(
                id,
                WorkerState::RunningQueued,
                WorkerInput::Ran(TaskControlCommand::Abort),
            );
            &&& report == WorkerAction::<T>::Send(WorkerToControlEvent::AbortTaskChain)
            &&& worker_transition::<T>(id, reporting, WorkerInput::Sent(taken)) == (
                WorkerState::Completing,
                WorkerAction::<T>::Send(WorkerToControlEvent::Complete(id)),
            )
        }),
        ({
            let (reporting, report) = worker_transition::<T>(
                id,
                WorkerState::RunningGiven,
                WorkerInput::Ran(TaskControlCommand::Abort),
            );
            &&& report == WorkerAction::<T>::Send(WorkerToControlEvent::AbortTaskChain)
            &&& worker_transition::<T>(id, reporting, WorkerInput::Sent(taken)) == if taken {
                (
                    WorkerState::Completing,
                    WorkerAction::<T>::Send(WorkerToControlEvent::Complete(id)),
                )
            } else {
                (WorkerState::Stopped, WorkerAction::<T>::Exit)
            }
        }),
        worker_transition::<T>(id, WorkerState::Completing, WorkerInput::Sent(true)) == (
            WorkerState::Waiting,
            WorkerAction::<T>::Receive,
        ),
{
}

/// A stopped worker stays stopped.
pub proof fn lemma_stopped_worker_stays_stopped<T>(id: WorkerId, input: WorkerInput<T>)
    ensures
        worker_transition(id, WorkerState::Stopped, input) == (
            WorkerState::Stopped,
            WorkerAction::<T>::Exit,
        ),
{
}

} // verus!
