//! Parallel execution of a queue of tasks, where a running task may add new
//! tasks to the queue.
//!
//! The library holds the decisions of the task queue: the order in which
//! queued tasks are taken, which worker gets which task, and how the
//! controller reacts to what the workers report.  Threads, locks and the
//! receiving ends of the channels are run by the program around it.
use vstd::prelude::*;
use std::collections::VecDeque;

pub mod channel;
pub mod errors;
pub mod events;
pub mod task;
pub mod worker;
pub mod workers_holder;
pub mod controller;

pub use channel::SendReceipt;
pub use controller::{Controller, ControllerFlow};
pub use errors::Error;
pub use events::{ControlToWorkerEvent, WorkerToControlEvent};
pub use task::{TaskControlCommand, TaskReceiver};
pub use worker::{
    after_task, next_step, worker_step, AfterTask, WorkerAction, WorkerId, WorkerInput,
    WorkerState, WorkerStep,
};
pub use workers_holder::{Status, WorkersHolder};

verus! {

/// Where a new task is put.  Workers always take the task at the back of the
/// container, so `Stack` runs the newest task first and `Queue` the oldest.
#[derive(Copy, Clone, Debug, PartialEq, Eq, Structural)]
pub enum QueueType {
    /// A new task goes to the back: last in, first out.
    Stack,
    /// A new task goes to the front: first in, first out.
    Queue,
}

/// The container of the tasks that wait for a free worker.  Tasks are taken
/// from the back.
pub struct TaskContainer<T> {
    tasks: VecDeque<T>,
}

impl<T> View for TaskContainer<T> {
    type V = Seq<T>;

    closed spec fn view(&self) -> Seq<T> {
        self.tasks@
    }
}

/// The waiting tasks after `task` has been added to `tasks` in the discipline
/// `queue_type`.
pub open spec fn enqueued<T>(tasks: Seq<T>, task: T, queue_type: QueueType) -> Seq<T> {
    match queue_type {
        QueueType::Stack => tasks.push(task),
        QueueType::Queue => seq![task] + tasks,
    }
}

/// The waiting tasks after each task of `added` has been added, in that
/// order, to `tasks`.
pub open spec fn enqueued_all<T>(tasks: Seq<T>, added: Seq<T>, queue_type: QueueType) -> Seq<T>
    decreases added.len(),
{
    if added.len() == 0 {
        tasks
    } else {
        enqueued(enqueued_all(tasks, added.drop_last(), queue_type), added.last(), queue_type)
    }
}

/// The order in which the tasks of `tasks` are taken when nothing is added
/// meanwhile: from the back to the front.
pub open spec fn taking_order<T>(tasks: Seq<T>) -> Seq<T> {
    tasks.reverse()
}

/// The first `count` tasks taken from the back of `tasks`, in the order in
/// which they are taken.
pub open spec fn taken_from_back<T>(tasks: Seq<T>, count: nat) -> Seq<T> {
    Seq::new(count, |j: int| tasks[tasks.len() - 1 - j])
}

/// Taking `count` tasks from the back loses no task and makes up none: the
/// tasks taken, put back in reverse, together with the tasks left are the
/// tasks there were; and they come in the container's taking order.
pub proof fn lemma_taking_keeps_every_task<T>(tasks: Seq<T>, count: nat)
    requires
        count <= tasks.len(),
    ensures
        tasks.take(tasks.len() - count) + taken_from_back(tasks, count).reverse() == tasks,
        taken_from_back(tasks, count) == taking_order(tasks).take(count as int),
{
    assert(tasks.take(tasks.len() - count) + taken_from_back(tasks, count).reverse() =~= tasks);
    assert(taken_from_back(tasks, count) =~= taking_order(tasks).take(count as int));
}

impl<T> TaskContainer<T> {
    /// An empty container.
    pub fn new() -> (r: Self)
        ensures
            r@ == Seq::<T>::empty(),
    {
        TaskContainer { tasks: VecDeque::new() }
    }

    /// The number of waiting tasks.
    pub fn len(&self) -> (r: usize)
        ensures
            r == self@.len(),
    {
        self.tasks.len()
    }

    /// Whether no task waits.
    pub fn is_empty(&self) -> (r: bool)
        ensures
            r == (self@.len() == 0),
    {
        self.tasks.len() == 0
    }

    /// Takes the task at the back, if there is one.
    pub fn pop_back(&mut self) -> (r: Option<T>)
        ensures
            old(self)@.len() == 0 ==> r is None && final(self)@ == old(self)@,
            old(self)@.len() > 0 ==> r == Some(old(self)@.last()) && final(self)@ == old(self)@.drop_last(),
    {
        self.tasks.pop_back()
    }

    /// Drops every waiting task.
    pub fn clear(&mut self)
        ensures
            final(self)@ == Seq::<T>::empty(),
    {
        self.tasks.clear();
    }
}

/// Adds `task` to `queue`: at the back for `QueueType::Stack`, at the front
/// for `QueueType::Queue`.
pub fn add_to_queue<T>(task: T, queue_type: QueueType, queue: &mut TaskContainer<T>)
    ensures
        final(queue)@ == enqueued(old(queue)@, task, queue_type),
{
    match queue_type {
        QueueType::Stack => queue.tasks.push_back(task),
        QueueType::Queue => queue.tasks.push_front(task),
    }
}

/// With `QueueType::Stack`, the task added last is the task taken first, and
/// taking it leaves the container as it was before the addition.
pub proof fn lemma_stack_takes_newest<T>(tasks: Seq<T>, task: T)
    ensures
        enqueued(tasks, task, QueueType::Stack).last() == task,
        enqueued(tasks, task, QueueType::Stack).drop_last() == tasks,
{
    assert(tasks.push(task).drop_last() =~= tasks);
}

/// With `QueueType::Queue`, adding a task does not change which task is taken
/// next when some task already waits.
pub proof fn lemma_queue_keeps_oldest_next<T>(tasks: Seq<T>, task: T)
    requires
        tasks.len() > 0,
    ensures
        enqueued(tasks, task, QueueType::Queue).last() == tasks.last(),
        enqueued(tasks, task, QueueType::Queue).drop_last() == enqueued(
            tasks.drop_last(),
            task,
            QueueType::Queue,
        ),
{
    assert((seq![task] + tasks).drop_last() =~= seq![task] + tasks.drop_last());
}

/// Tasks added one after the other to an empty container with
/// `QueueType::Queue` are taken in the order in which they were added.
pub proof fn lemma_queue_is_first_in_first_out<T>(added: Seq<T>)
    ensures
        taking_order(enqueued_all(Seq::<T>::empty(), added, QueueType::Queue)) == added,
{
    lemma_queue_all_is_reversed(added);
    assert(added.reverse().reverse() =~= added);
}

/// Tasks added one after the other to an empty container with
/// `QueueType::Stack` are taken in the reverse of the order in which they
/// were added.
pub proof fn lemma_stack_is_last_in_first_out<T>(added: Seq<T>)
    ensures
        taking_order(enqueued_all(Seq::<T>::empty(), added, QueueType::Stack)) == added.reverse(),
{
    lemma_stack_all_is_added(added);
}

proof fn lemma_queue_all_is_reversed<T>(added: Seq<T>)
    ensures
        enqueued_all(Seq::<T>::empty(), added, QueueType::Queue) == added.reverse(),
    decreases added.len(),
{
    if added.len() > 0 {
        lemma_queue_all_is_reversed(added.drop_last());
        assert(seq![added.last()] + added.drop_last().reverse() =~= added.reverse());
    }
}

proof fn lemma_stack_all_is_added<T>(added: Seq<T>)
    ensures
        enqueued_all(Seq::<T>::empty(), added, QueueType::Stack) == added,
    decreases added.len(),
{
    if added.len() > 0 {
        lemma_stack_all_is_added(added.drop_last());
        assert(added.drop_last().push(added.last()) =~= added);
    }
}

} // verus!
