//! The controller's decisions: what it does with each event that reaches it,
//! when it gives tasks to workers, and when it finishes.
//!
//! The controller's loop receives an event (or nothing, when none came in
//! time) and hands it to `Controller::step`, which reacts to the event
//! (`Controller::on_event`), checks the busy workers (`Controller::keep_alive`)
//! and gives waiting tasks to free workers (`Controller::dispatch`).  The loop
//! ends as soon as a round answers `ControllerFlow::Finish`, and then calls
//! `Controller::shutdown`.
use vstd::prelude::*;
use std::sync::mpsc::Sender;
use crate::channel::SendReceipt;
use crate::errors::Error;
use crate::events::{ControlToWorkerEvent, WorkerToControlEvent};
use crate::worker::WorkerId;
use crate::workers_holder::{
    lemma_keep_alive_releases_exactly_the_unreachable,
    active_ids, addressed, after_dispatch, after_keep_alive, all_released, busy_ids, dispatch_plan, free_ids, min_nat,
    run_messages, some_busy, status_in, with_status, worker_ids, Status,
    WorkersHolder,
};
use crate::{
    add_to_queue, enqueued, enqueued_all, lemma_queue_is_first_in_first_out,
    lemma_stack_is_last_in_first_out, QueueType, TaskContainer,
};

verus! {

/// Whether the controller's loop goes on.
#[derive(Copy, Clone, Debug, PartialEq, Eq, Structural)]
pub enum ControllerFlow {
    /// Wait for the next event.
    Continue,
    /// Leave the loop and stop the workers.
    Finish,
}

/// What the controller knows: its workers, where new tasks go, and whether
/// the owner of the task queue has asked it to finish.
#[verifier::reject_recursive_types(T)]
pub struct Controller<T> {
    workers: WorkersHolder<T>,
    queue_type: QueueType,
    stop_requested: bool,
}

/// The controller as the contracts see it.
pub struct ControllerView {
    pub workers: Seq<(WorkerId, Status)>,
    pub queue_type: QueueType,
    pub stop_requested: bool,
}

impl<T> View for Controller<T> {
    type V = ControllerView;

    closed spec fn view(&self) -> ControllerView {
        ControllerView {
            workers: self.workers@,
            queue_type: self.queue_type,
            stop_requested: self.stop_requested,
        }
    }
}

/// Whether the controller is done: the owner asked it to finish, no worker
/// runs a task and no task waits.
pub open spec fn all_done<T>(c: ControllerView, queue: Seq<T>) -> bool {
    c.stop_requested && !some_busy(c.workers) && queue.len() == 0
}

/// The workers after the controller has reacted to `event`: a `Complete`
/// from a known worker frees it; nothing else changes them.
pub open spec fn workers_after_event<T>(
    workers: Seq<(WorkerId, Status)>,
    event: Option<WorkerToControlEvent<T>>,
) -> Seq<(WorkerId, Status)> {
    match event {
        Some(WorkerToControlEvent::Complete(id)) => if worker_ids(workers).contains(id) {
            with_status(workers, id, Status::Free)
        } else {
            workers
        },
        _ => workers,
    }
}

/// The waiting tasks after the controller has reacted to `event`: an
/// `AddTask` adds its task as `queue_type` says, an `AbortTaskChain` drops
/// them all; nothing else changes them.
pub open spec fn queue_after_event<T>(
    tasks: Seq<T>,
    event: Option<WorkerToControlEvent<T>>,
    queue_type: QueueType,
) -> Seq<T> {
    match event {
        Some(WorkerToControlEvent::AddTask(task)) => enqueued(tasks, task, queue_type),
        Some(WorkerToControlEvent::AbortTaskChain) => Seq::empty(),
        _ => tasks,
    }
}

/// Whether `after` comes from `before` by releasing some busy workers and
/// changing nothing else.
pub open spec fn releases_only(
    before: Seq<(WorkerId, Status)>,
    after: Seq<(WorkerId, Status)>,
) -> bool {
    &&& after.len() == before.len()
    &&& forall|j: int|
        0 <= j < before.len() ==> #[trigger] after[j] == before[j] || (before[j].1 == Status::Busy
            && after[j] == (before[j].0, Status::Released))
}

/// Whether some busy worker of `before` is released in `after`.
pub open spec fn released_some(
    before: Seq<(WorkerId, Status)>,
    after: Seq<(WorkerId, Status)>,
) -> bool {
    exists|j: int|
        0 <= j < before.len() && before[j].1 == Status::Busy && #[trigger] after[j].1
            == Status::Released
}

/// The waiting tasks after rounds that received `AddTask` for each task of
/// `added`, in order, starting from `tasks`, before any task was handed out.
pub open spec fn after_adding<T>(tasks: Seq<T>, added: Seq<T>, queue_type: QueueType) -> Seq<T>
    decreases added.len(),
{
    if added.len() == 0 {
        tasks
    } else {
        queue_after_event(
            after_adding(tasks, added.drop_last(), queue_type),
            Some(WorkerToControlEvent::AddTask(added.last())),
            queue_type,
        )
    }
}

/// A round that receives `AddTask(task)` puts the task where the queue type
/// says, before it hands out tasks from the back: at the front for
/// `QueueType::Queue`, so that the oldest waiting task is still the next one
/// handed out; at the back for `QueueType::Stack`, so that the new task is
/// the next one handed out.  Over any number of rounds, with `Queue` the
/// tasks are handed out in the order in which they arrived, and with `Stack`
/// in the reverse order.
pub proof fn lemma_round_adds_task_by_queue_type<T>(tasks: Seq<T>, task: T, added: Seq<T>)
    ensures
        queue_after_event(tasks, Some(WorkerToControlEvent::AddTask(task)), QueueType::Queue)
            == seq![task] + tasks,
        queue_after_event(tasks, Some(WorkerToControlEvent::AddTask(task)), QueueType::Stack)
            == tasks.push(task),
        tasks.len() > 0 ==> queue_after_event(
            tasks,
            Some(WorkerToControlEvent::AddTask(task)),
            QueueType::Queue,
        ).last() == tasks.last(),
        queue_after_event(tasks, Some(WorkerToControlEvent::AddTask(task)), QueueType::Stack).last()
            == task,
        after_adding(Seq::<T>::empty(), added, QueueType::Queue).reverse() == added,
        after_adding(Seq::<T>::empty(), added, QueueType::Stack).reverse() == added.reverse(),
{
    lemma_after_adding_is_enqueued_all(added, QueueType::Queue);
    lemma_after_adding_is_enqueued_all(added, QueueType::Stack);
    lemma_queue_is_first_in_first_out(added);
    lemma_stack_is_last_in_first_out(added);
    assert((seq![task] + tasks).last() == tasks.last() || tasks.len() == 0);
}

proof fn lemma_after_adding_is_enqueued_all<T>(added: Seq<T>, queue_type: QueueType)
    ensures
        after_adding(Seq::<T>::empty(), added, queue_type) == enqueued_all(
            Seq::<T>::empty(),
            added,
            queue_type,
        ),
    decreases added.len(),
{
    if added.len() > 0 {
        lemma_after_adding_is_enqueued_all(added.drop_last(), queue_type);
    }
}

impl<T> Controller<T> {
    /// The invariant of the controller's record of its workers.
    pub closed spec fn wf(&self) -> bool {
        self.workers.wf()
    }

    /// The channels that reach the workers, in the order of the workers.
    pub closed spec fn channels(&self) -> Seq<Sender<ControlToWorkerEvent<T>>> {
        self.workers.channels()
    }

    /// The messages handed to the workers' channels so far, each with the id
    /// of its worker, in order, as the receipts of `send` give them (see
    /// `WorkersHolder::sent`).
    pub closed spec fn sent(&self) -> Seq<(WorkerId, ControlToWorkerEvent<T>)> {
        self.workers.sent()
    }

    /// The receipts of every call of `send` that the controller made, each
    /// with the id of the worker whose channel it used.
    pub closed spec fn receipts(&self) -> Seq<(WorkerId, SendReceipt<ControlToWorkerEvent<T>>)> {
        self.workers.receipts()
    }

    /// Whether each message of `sent()` was taken by its channel.
    pub closed spec fn answers(&self) -> Seq<bool> {
        self.workers.answers()
    }

    /// The channel of the worker `id`.
    pub open spec fn channel_of(&self, id: WorkerId) -> Sender<ControlToWorkerEvent<T>> {
        self.channels()[worker_ids(self@.workers).index_of(id)]
    }

    /// Every message in `sent()` is the message of a receipt of `send`, which
    /// was handed to the channel of the worker it names.
    pub proof fn lemma_sent_on_own_channels(&self)
        requires
            self.wf(),
        ensures
            self.sent().len() == self.receipts().len(),
            self.answers().len() == self.receipts().len(),
            forall|k: int|
                0 <= k < self.sent().len() ==> worker_ids(self@.workers).contains(
                    (#[trigger] self.sent()[k]).0,
                ) && self.receipts()[k].0 == self.sent()[k].0 && self.receipts()[k].1.channel()
                    == self.channel_of(self.sent()[k].0) && self.receipts()[k].1.event()
                    == self.sent()[k].1 && self.receipts()[k].1.taken() == self.answers()[k],
    {
        self.workers.lemma_sent_on_own_channels();
    }

    /// A controller of the workers `workers`, each given as its id and the
    /// channel that reaches it, all free, that adds new tasks with
    /// `queue_type`.
    pub fn new(
        workers: Vec<(WorkerId, Sender<ControlToWorkerEvent<T>>)>,
        queue_type: QueueType,
    ) -> (r: Self)
        requires
            workers@.map_values(|w: (WorkerId, Sender<ControlToWorkerEvent<T>>)| w.0).no_duplicates(),
        ensures
            r.wf(),
            worker_ids(r@.workers) == workers@.map_values(
                |w: (WorkerId, Sender<ControlToWorkerEvent<T>>)| w.0,
            ),
            r.channels() == workers@.map_values(
                |w: (WorkerId, Sender<ControlToWorkerEvent<T>>)| w.1,
            ),
            forall|i: int| 0 <= i < r@.workers.len() ==> #[trigger] r@.workers[i].1 == Status::Free,
            r@.queue_type == queue_type,
            !r@.stop_requested,
            r.sent() == Seq::<(WorkerId, ControlToWorkerEvent<T>)>::empty(),
    {
        Controller { workers: WorkersHolder::new(workers), queue_type, stop_requested: false }
    }

    /// Where new tasks go.
    pub fn queue_type(&self) -> (r: QueueType)
        ensures
            r == self@.queue_type,
    {
        self.queue_type
    }

    /// Whether the owner of the task queue has asked the controller to
    /// finish.
    pub fn stop_requested(&self) -> (r: bool)
        ensures
            r == self@.stop_requested,
    {
        self.stop_requested
    }

    /// The status of the worker `id`, or `None` when the controller does not
    /// know it.
    pub fn worker_status(&self, id: WorkerId) -> (r: Option<Status>)
        requires
            self.wf(),
        ensures
            r == status_in(self@.workers, id),
    {
        self.workers.status(id)
    }

    /// Whether some worker runs a task.
    pub fn has_busy_workers(&self) -> (r: bool)
        requires
            self.wf(),
        ensures
            r == some_busy(self@.workers),
    {
        self.workers.has_busy_workers()
    }

    /// Reacts to `event`, or to no event when `event` is `None`.
    /// - `AddTask` adds the task to `queue` as the controller's queue type says;
    /// - `Complete` marks the worker free again, and fails with
    ///   `Error::WorkerNotFound` when the controller does not know it;
    /// - `AbortTaskChain` drops every waiting task and finishes;
    /// - `Stop` records that the controller is to finish once every task has
    ///   run.
    pub fn on_event(
        &mut self,
        event: Option<WorkerToControlEvent<T>>,
        queue: &mut TaskContainer<T>,
    ) -> (r: Result<ControllerFlow, Error>)
        requires
            old(self).wf(),
        ensures
            final(self).wf(),
            final(self).channels() == old(self).channels(),
            final(self).sent() == old(self).sent(),
            final(self).receipts() == old(self).receipts(),
            final(self)@.queue_type == old(self)@.queue_type,
            final(self)@.stop_requested == (old(self)@.stop_requested || event matches Some(
                WorkerToControlEvent::Stop,
            )),
            match event {
                None => r == Ok::<ControllerFlow, Error>(ControllerFlow::Continue) && final(self)@.workers == old(self)@.workers && final(queue)@ == old(queue)@,
                Some(WorkerToControlEvent::AddTask(task)) => r == Ok::<ControllerFlow, Error>(
                    ControllerFlow::Continue,
                ) && final(self)@.workers == old(self)@.workers && final(queue)@ == enqueued(
                    old(queue)@,
                    task,
                    old(self)@.queue_type,
                ),
                Some(WorkerToControlEvent::Complete(id)) => final(queue)@ == old(queue)@ && (
                if worker_ids(old(self)@.workers).contains(id) {
                    r == Ok::<ControllerFlow, Error>(ControllerFlow::Continue) && final(self)@.workers == with_status(old(self)@.workers, id, Status::Free)
                } else {
                    r == Err::<ControllerFlow, Error>(Error::WorkerNotFound { id }) && final(self)@.workers == old(self)@.workers
                }),
                Some(WorkerToControlEvent::AbortTaskChain) => r == Ok::<ControllerFlow, Error>(
                    ControllerFlow::Finish,
                ) && final(self)@.workers == old(self)@.workers && final(queue)@ == Seq::<
                    T,
                >::empty(),
                Some(WorkerToControlEvent::Stop) => r == Ok::<ControllerFlow, Error>(
                    ControllerFlow::Continue,
                ) && final(self)@.workers == old(self)@.workers && final(queue)@ == old(queue)@,
            },
    {
        match event {
            None => Ok(ControllerFlow::Continue),
            Some(WorkerToControlEvent::AddTask(task)) => {
                add_to_queue(task, self.queue_type, queue);
                Ok(ControllerFlow::Continue)
            },
            Some(WorkerToControlEvent::Complete(id)) => {
                match self.workers.free_worker(id) {
                    Ok(()) => Ok(ControllerFlow::Continue),
                    Err(e) => Err(e),
                }
            },
            Some(WorkerToControlEvent::AbortTaskChain) => {
                queue.clear();
                Ok(ControllerFlow::Finish)
            },
            Some(WorkerToControlEvent::Stop) => {
                self.stop_requested = true;
                Ok(ControllerFlow::Continue)
            },
        }
    }

    /// Hands a keep-alive message to every busy worker's channel and releases
    /// those that no longer listen.  Finishes when it released one: a worker that
    /// stopped while running a task has panicked.
    pub fn keep_alive(&mut self) -> (r: ControllerFlow)
        requires
            old(self).wf(),
        ensures
            final(self).wf(),
            final(self).channels() == old(self).channels(),
            final(self)@.queue_type == old(self)@.queue_type,
            final(self)@.stop_requested == old(self)@.stop_requested,
            final(self).sent() == old(self).sent() + addressed(
                busy_ids(old(self)@.workers),
                ControlToWorkerEvent::KeepAlive,
            ),
            final(self).answers().len() == old(self).answers().len() + busy_ids(
                old(self)@.workers,
            ).len(),
            final(self).answers().take(old(self).answers().len() as int) == old(self).answers(),
            final(self)@.workers == after_keep_alive(
                old(self)@.workers,
                final(self).answers().skip(old(self).answers().len() as int),
            ),
            final(self)@.workers.len() == old(self)@.workers.len(),
            forall|j: int|
                0 <= j < old(self)@.workers.len() ==> #[trigger] final(self)@.workers[j] == old(self)@.workers[j] || (old(self)@.workers[j].1 == Status::Busy && final(self)@.workers[j]
                    == (old(self)@.workers[j].0, Status::Released)),
            (r == ControllerFlow::Finish) == exists|j: int|
                0 <= j < old(self)@.workers.len() && old(self)@.workers[j].1 == Status::Busy
                    && #[trigger] final(self)@.workers[j].1 == Status::Released,
            r == ControllerFlow::Continue ==> final(self)@ == old(self)@,
    {
        if self.workers.keep_alive() {
            ControllerFlow::Finish
        } else {
            ControllerFlow::Continue
        }
    }

    /// Finishes when every task has run and the owner asked the controller to
    /// finish; otherwise gives the tasks at the back of `queue` to the free
    /// workers, one each, and hands each task to its worker's channel, as
    /// `WorkersHolder::run_tasks` does.
    pub fn dispatch(&mut self, queue: &mut TaskContainer<T>) -> (r: ControllerFlow)
        requires
            old(self).wf(),
        ensures
            final(self).wf(),
            final(self).channels() == old(self).channels(),
            final(self)@.queue_type == old(self)@.queue_type,
            final(self)@.stop_requested == old(self)@.stop_requested,
            (r == ControllerFlow::Finish) == all_done(old(self)@, old(queue)@),
            r == ControllerFlow::Finish ==> final(self)@ == old(self)@ && final(queue)@ == old(queue)@
                && final(self).sent() == old(self).sent() && final(self).receipts() == old(self).receipts(),
            final(self).answers().len() >= old(self).answers().len(),
            final(self).answers().take(old(self).answers().len() as int) == old(self).answers(),
            r == ControllerFlow::Continue ==> {
                let count = min_nat(free_ids(old(self)@.workers).len(), old(queue)@.len());
                &&& final(queue)@ == old(queue)@.take(old(queue)@.len() - count)
                &&& final(self)@.workers == after_dispatch(old(self)@.workers, count)
                &&& final(self).sent() == old(self).sent() + run_messages(
                    dispatch_plan(old(self)@.workers, old(queue)@),
                )
            },
    {
        if self.stop_requested && !self.workers.has_busy_workers() && queue.is_empty() {
            return ControllerFlow::Finish;
        }
        self.workers.run_tasks(queue);
        ControllerFlow::Continue
    }

    /// One round of the controller's loop: reacts to `event` (or to no
    /// event), then, unless that ends the round, checks the busy workers with
    /// a keep-alive message, then, unless a busy worker is gone, finishes if
    /// every task has run and the owner asked to finish, or else gives the
    /// waiting tasks to the free workers.  Fails, changing nothing, on a
    /// `Complete` from a worker the controller does not know.
    pub fn step(
        &mut self,
        event: Option<WorkerToControlEvent<T>>,
        queue: &mut TaskContainer<T>,
    ) -> (r: Result<ControllerFlow, Error>)
        requires
            old(self).wf(),
        ensures
            final(self).wf(),
            final(self).channels() == old(self).channels(),
            final(self)@.queue_type == old(self)@.queue_type,
            final(self)@.stop_requested == (old(self)@.stop_requested || event matches Some(
                WorkerToControlEvent::Stop,
            )),
            match event {
                Some(WorkerToControlEvent::Complete(id)) if !worker_ids(old(self)@.workers).contains(
                    id,
                ) => {
                    &&& r == Err::<ControllerFlow, Error>(Error::WorkerNotFound { id })
                    &&& final(self)@ == old(self)@
                    &&& final(self).sent() == old(self).sent()
                    &&& final(queue)@ == old(queue)@
                },
                Some(WorkerToControlEvent::AbortTaskChain) => {
                    &&& r == Ok::<ControllerFlow, Error>(ControllerFlow::Finish)
                    &&& final(self)@.workers == old(self)@.workers
                    &&& final(self).sent() == old(self).sent()
                    &&& final(queue)@ == Seq::<T>::empty()
                },
                _ => {
                    let workers = workers_after_event(old(self)@.workers, event);
                    let tasks = queue_after_event(old(queue)@, event, old(self)@.queue_type);
                    let pinged = old(self).sent() + addressed(
                        busy_ids(workers),
                        ControlToWorkerEvent::KeepAlive,
                    );
                    let stop = final(self)@.stop_requested;
                    let done = all_done(
                        ControllerView { workers, queue_type: old(self)@.queue_type, stop_requested: stop },
                        tasks,
                    );
                    let count = min_nat(free_ids(workers).len(), tasks.len());
                    let heard = final(self).answers().subrange(
                        old(self).answers().len() as int,
                        (old(self).answers().len() + busy_ids(workers).len()) as int,
                    );
                    &&& final(self).answers().len() >= old(self).answers().len() + busy_ids(
                        workers,
                    ).len()
                    &&& final(self).answers().take(old(self).answers().len() as int) == old(
                        self,
                    ).answers()
                    &&& if heard.contains(false) {
                        &&& r == Ok::<ControllerFlow, Error>(ControllerFlow::Finish)
                        &&& final(self)@.workers == after_keep_alive(workers, heard)
                        &&& final(queue)@ == tasks
                        &&& final(self).sent() == pinged
                    } else if done {
                        &&& r == Ok::<ControllerFlow, Error>(ControllerFlow::Finish)
                        &&& final(self)@.workers == workers
                        &&& final(queue)@ == tasks
                        &&& final(self).sent() == pinged
                    } else {
                        &&& r == Ok::<ControllerFlow, Error>(ControllerFlow::Continue)
                        &&& final(self)@.workers == after_dispatch(workers, count)
                        &&& final(queue)@ == tasks.take(tasks.len() - count)
                        &&& final(self).sent() == pinged + run_messages(dispatch_plan(workers, tasks))
                    }
                },
            },
    {
        match self.on_event(event, queue) {
            Err(e) => {
                return Err(e);
            },
            Ok(ControllerFlow::Finish) => {
                return Ok(ControllerFlow::Finish);
            },
            Ok(ControllerFlow::Continue) => {},
        }
        let ghost mid = self@.workers;
        let ghost a0 = self.answers();
        let alive = self.keep_alive();
        let ghost heard = self.answers().subrange(a0.len() as int, self.answers().len() as int);
        let ghost a1 = self.answers();
        proof {
            assert(heard =~= self.answers().skip(a0.len() as int));
            lemma_keep_alive_releases_exactly_the_unreachable(mid, heard);
        }
        if alive == ControllerFlow::Finish {
            return Ok(ControllerFlow::Finish);
        }
        proof {
            assert(self@.workers =~= mid);
        }
        let r = self.dispatch(queue);
        proof {
            assert(self.answers().take(a0.len() as int) =~= a1.take(a0.len() as int));
            assert(self.answers().subrange(a0.len() as int, a1.len() as int) =~= heard);
        }
        Ok(r)
    }

    /// Hands a stop message to every worker that is not released yet, and
    /// releases every worker.
    pub fn shutdown(&mut self)
        requires
            old(self).wf(),
        ensures
            final(self).wf(),
            final(self).channels() == old(self).channels(),
            final(self)@.queue_type == old(self)@.queue_type,
            final(self)@.stop_requested == old(self)@.stop_requested,
            final(self)@.workers == all_released(old(self)@.workers),
            final(self).sent() == old(self).sent() + addressed(
                active_ids(old(self)@.workers),
                ControlToWorkerEvent::Stop,
            ),
    {
        self.workers.stop_workers();
    }
}

} // verus!
