//! The controller's record of its workers: which worker is free, which runs a
//! task, and which has been let go, with the channel that reaches each one.
use vstd::prelude::*;
use std::sync::mpsc::Sender;
use crate::errors::Error;
use crate::events::ControlToWorkerEvent;
use crate::channel::{send_event, SendReceipt};
use crate::worker::WorkerId;
use crate::{taken_from_back, TaskContainer};

verus! {

/// What the controller knows of a worker.
#[derive(Copy, Clone, Debug, PartialEq, Eq, Structural)]
pub enum Status {
    /// Waits for a task.
    Free,
    /// Runs a task, and then the tasks it finds in the queue.
    Busy,
    /// Has been told to stop, or no longer listens.
    Released,
}

#[verifier::reject_recursive_types(T)]
struct Slot<T> {
    id: WorkerId,
    status: Status,
    channel: Sender<ControlToWorkerEvent<T>>,
}

/// The workers of one controller, in a fixed order, each once.
#[verifier::reject_recursive_types(T)]
pub struct WorkersHolder<T> {
    slots: Vec<Slot<T>>,
    sent: Ghost<Seq<(WorkerId, SendReceipt<ControlToWorkerEvent<T>>)>>,
}

/// The ids of `workers`, in their order.
pub open spec fn worker_ids(workers: Seq<(WorkerId, Status)>) -> Seq<WorkerId> {
    workers.map_values(|w: (WorkerId, Status)| w.0)
}

/// The ids of the workers of `workers` whose status satisfies `wanted`, in
/// their order.
pub open spec fn ids_with_status(
    workers: Seq<(WorkerId, Status)>,
    wanted: Set<Status>,
) -> Seq<WorkerId>
    decreases workers.len(),
{
    if workers.len() == 0 {
        Seq::empty()
    } else {
        let earlier = ids_with_status(workers.drop_last(), wanted);
        if wanted.contains(workers.last().1) {
            earlier.push(workers.last().0)
        } else {
            earlier
        }
    }
}

/// The ids of the free workers, in order.
pub open spec fn free_ids(workers: Seq<(WorkerId, Status)>) -> Seq<WorkerId> {
    ids_with_status(workers, set![Status::Free])
}

/// The ids of the busy workers, in order.
pub open spec fn busy_ids(workers: Seq<(WorkerId, Status)>) -> Seq<WorkerId> {
    ids_with_status(workers, set![Status::Busy])
}

/// The ids of the workers that have not been released, in order.
pub open spec fn active_ids(workers: Seq<(WorkerId, Status)>) -> Seq<WorkerId> {
    ids_with_status(workers, set![Status::Free, Status::Busy])
}

/// Whether some worker of `workers` is busy.
pub open spec fn some_busy(workers: Seq<(WorkerId, Status)>) -> bool {
    exists|i: int| 0 <= i < workers.len() && #[trigger] workers[i].1 == Status::Busy
}

/// The status of the worker `id` in `workers`, if it is there.
pub open spec fn status_in(workers: Seq<(WorkerId, Status)>, id: WorkerId) -> Option<Status> {
    if worker_ids(workers).contains(id) {
        Some(workers[worker_ids(workers).index_of(id)].1)
    } else {
        None
    }
}

/// `workers` with the status of the worker `id` set to `status`.
pub open spec fn with_status(
    workers: Seq<(WorkerId, Status)>,
    id: WorkerId,
    status: Status,
) -> Seq<(WorkerId, Status)> {
    workers.map_values(
        |w: (WorkerId, Status)|
            if w.0 == id {
                (id, status)
            } else {
                w
            },
    )
}

/// `workers` after the first `count` free workers have been given a task.
pub open spec fn after_dispatch(workers: Seq<(WorkerId, Status)>, count: nat) -> Seq<
    (WorkerId, Status),
> {
    Seq::new(
        workers.len(),
        |j: int|
            if workers[j].1 == Status::Free && free_ids(workers.take(j)).len() < count {
                (workers[j].0, Status::Busy)
            } else {
                workers[j]
            },
    )
}

/// `workers` after the busy workers whose ids are in `unreachable` have been
/// released.
pub open spec fn after_release(
    workers: Seq<(WorkerId, Status)>,
    unreachable: Seq<WorkerId>,
) -> Seq<(WorkerId, Status)> {
    workers.map_values(
        |w: (WorkerId, Status)|
            if w.1 == Status::Busy && unreachable.contains(w.0) {
                (w.0, Status::Released)
            } else {
                w
            },
    )
}

/// `workers` after the keep-alive round whose answers, one per busy worker
/// in order, are `answers`: a busy worker whose channel did not take its
/// message is released; every other worker stays as it was.
pub open spec fn after_keep_alive(workers: Seq<(WorkerId, Status)>, answers: Seq<bool>) -> Seq<
    (WorkerId, Status),
> {
    Seq::new(
        workers.len(),
        |j: int|
            if workers[j].1 == Status::Busy && !answers[busy_ids(workers.take(j)).len() as int] {
                (workers[j].0, Status::Released)
            } else {
                workers[j]
            },
    )
}

/// `workers` with every worker released.
pub open spec fn all_released(workers: Seq<(WorkerId, Status)>) -> Seq<(WorkerId, Status)> {
    workers.map_values(|w: (WorkerId, Status)| (w.0, Status::Released))
}

/// The plan of a dispatch: the `j`-th free worker of `workers` with the
/// `j`-th task from the back of `tasks`, until one of them runs out.
pub open spec fn dispatch_plan<T>(workers: Seq<(WorkerId, Status)>, tasks: Seq<T>) -> Seq<
    (WorkerId, T),
> {
    Seq::new(
        min_nat(free_ids(workers).len(), tasks.len()),
        |j: int| (free_ids(workers)[j], tasks[tasks.len() - 1 - j]),
    )
}

/// The messages that hand each task of `plan` to its worker.
pub open spec fn run_messages<T>(plan: Seq<(WorkerId, T)>) -> Seq<
    (WorkerId, ControlToWorkerEvent<T>),
> {
    plan.map_values(|a: (WorkerId, T)| (a.0, ControlToWorkerEvent::RunTask(a.1)))
}

/// The messages that hand `event` to each worker of `ids`, in order.
pub open spec fn addressed<T>(ids: Seq<WorkerId>, event: ControlToWorkerEvent<T>) -> Seq<
    (WorkerId, ControlToWorkerEvent<T>),
> {
    ids.map_values(|id: WorkerId| (id, event))
}

/// The smaller of `a` and `b`.
pub open spec fn min_nat(a: nat, b: nat) -> nat {
    if a <= b {
        a
    } else {
        b
    }
}

proof fn lemma_take_step<A>(s: Seq<A>, j: int)
    requires
        0 <= j < s.len(),
    ensures
        s.take(j + 1).drop_last() == s.take(j),
        s.take(j + 1).last() == s[j],
        s.take(j + 1).len() == j + 1,
{
    assert(s.take(j + 1).drop_last() =~= s.take(j));
}

proof fn lemma_take_all<A>(s: Seq<A>)
    ensures
        s.take(s.len() as int) == s,
{
    assert(s.take(s.len() as int) =~= s);
}

/// Selecting from a prefix of `workers` gives a prefix of the selection from
/// `workers`.
proof fn lemma_ids_prefix(workers: Seq<(WorkerId, Status)>, wanted: Set<Status>, i: int, n: int)
    requires
        0 <= i <= n <= workers.len(),
    ensures
        ids_with_status(workers.take(i), wanted).len() <= ids_with_status(
            workers.take(n),
            wanted,
        ).len(),
        forall|j: int|
            0 <= j < ids_with_status(workers.take(i), wanted).len() ==> #[trigger] ids_with_status(
                workers.take(i),
                wanted,
            )[j] == ids_with_status(workers.take(n), wanted)[j],
    decreases n - i,
{
    if i < n {
        lemma_ids_prefix(workers, wanted, i, n - 1);
        lemma_take_step(workers, n - 1);
    }
}

/// How the selection grows by one worker.
proof fn lemma_ids_step(workers: Seq<(WorkerId, Status)>, wanted: Set<Status>, j: int)
    requires
        0 <= j < workers.len(),
    ensures
        ids_with_status(workers.take(j + 1), wanted) == if wanted.contains(workers[j].1) {
            ids_with_status(workers.take(j), wanted).push(workers[j].0)
        } else {
            ids_with_status(workers.take(j), wanted)
        },
{
    lemma_take_step(workers, j);
}

/// A worker with a wanted status comes after every selected worker before it.
proof fn lemma_ids_count_grows(workers: Seq<(WorkerId, Status)>, wanted: Set<Status>, j: int, i: int)
    requires
        0 <= j < i <= workers.len(),
        wanted.contains(workers[j].1),
    ensures
        ids_with_status(workers.take(j), wanted).len() < ids_with_status(workers.take(i), wanted).len(),
{
    lemma_ids_step(workers, wanted, j);
    lemma_ids_prefix(workers, wanted, j + 1, i);
}

/// Every selected id is the id of a worker, before the end, whose status is
/// wanted.
proof fn lemma_ids_members(workers: Seq<(WorkerId, Status)>, wanted: Set<Status>, k: int)
    requires
        0 <= k < ids_with_status(workers, wanted).len(),
    ensures
        exists|j: int|
            0 <= j < workers.len() && wanted.contains(workers[j].1) && #[trigger] workers[j].0
                == ids_with_status(workers, wanted)[k],
    decreases workers.len(),
{
    let rest = workers.drop_last();
    let earlier = ids_with_status(rest, wanted);
    if k < earlier.len() {
        lemma_ids_members(rest, wanted, k);
        let j = choose|j: int|
            0 <= j < rest.len() && wanted.contains(rest[j].1) && #[trigger] rest[j].0 == earlier[k];
        assert(workers[j] == rest[j]);
        assert(ids_with_status(workers, wanted)[k] == earlier[k]);
    } else {
        let j = workers.len() - 1;
        assert(workers[j] == workers.last());
        assert(wanted.contains(workers[j].1) && workers[j].0 == ids_with_status(workers, wanted)[k]);
    }
}

/// When no worker occurs twice, no id is selected twice.
proof fn lemma_ids_no_duplicates(workers: Seq<(WorkerId, Status)>, wanted: Set<Status>)
    requires
        worker_ids(workers).no_duplicates(),
    ensures
        ids_with_status(workers, wanted).no_duplicates(),
    decreases workers.len(),
{
    if workers.len() > 0 {
        let rest = workers.drop_last();
        assert(worker_ids(rest) =~= worker_ids(workers).drop_last());
        lemma_ids_no_duplicates(rest, wanted);
        let earlier = ids_with_status(rest, wanted);
        if wanted.contains(workers.last().1) {
            assert forall|k: int| 0 <= k < earlier.len() implies earlier[k] != workers.last().0 by {
                lemma_ids_members(rest, wanted, k);
                let j = choose|j: int|
                    0 <= j < rest.len() && wanted.contains(rest[j].1) && #[trigger] rest[j].0
                        == earlier[k];
                assert(worker_ids(workers)[j] == rest[j].0);
                assert(worker_ids(workers)[workers.len() - 1] == workers.last().0);
            }
            let all = earlier.push(workers.last().0);
            assert forall|a: int, b: int| 0 <= a < all.len() && 0 <= b < all.len() && a != b implies all[a] != all[b] by {
                if a < earlier.len() && b < earlier.len() {
                } else if a < earlier.len() {
                    assert(all[b] == workers.last().0);
                } else {
                    assert(all[a] == workers.last().0);
                }
            }
        }
    }
}

/// A worker with a wanted status stands in the selection at the number of
/// selected workers before it.
proof fn lemma_ids_position(workers: Seq<(WorkerId, Status)>, wanted: Set<Status>, j: int)
    requires
        0 <= j < workers.len(),
        wanted.contains(workers[j].1),
    ensures
        ids_with_status(workers.take(j), wanted).len() < ids_with_status(workers, wanted).len(),
        ids_with_status(workers, wanted)[ids_with_status(workers.take(j), wanted).len() as int]
            == workers[j].0,
{
    lemma_ids_step(workers, wanted, j);
    lemma_ids_prefix(workers, wanted, j + 1, workers.len() as int);
    lemma_take_all(workers);
    let c = ids_with_status(workers.take(j), wanted).len() as int;
    assert(ids_with_status(workers.take(j + 1), wanted)[c] == workers[j].0);
}

/// Dispatching gives tasks to `count` distinct free workers and to no other:
/// the workers that are busy afterwards are those that were busy before and
/// the free workers among the first `count` free ones.  No worker changes
/// its id.
pub proof fn lemma_dispatch_gives_one_task_per_free_worker(
    workers: Seq<(WorkerId, Status)>,
    count: nat,
)
    requires
        worker_ids(workers).no_duplicates(),
        count <= free_ids(workers).len(),
    ensures
        free_ids(workers).take(count as int).no_duplicates(),
        forall|k: int|
            #![trigger free_ids(workers)[k]]
            0 <= k < count ==> exists|j: int|
                #![trigger workers[j]]
                0 <= j < workers.len() && workers[j].1 == Status::Free && workers[j].0 == free_ids(
                    workers,
                )[k],
        after_dispatch(workers, count).len() == workers.len(),
        forall|j: int|
            0 <= j < workers.len() ==> (#[trigger] after_dispatch(workers, count)[j]).0
                == workers[j].0,
        forall|j: int|
            0 <= j < workers.len() ==> ((#[trigger] after_dispatch(workers, count)[j]).1
                == Status::Busy) == (workers[j].1 == Status::Busy || (workers[j].1 == Status::Free
                && free_ids(workers).take(count as int).contains(workers[j].0))),
{
    let wanted = set![Status::Free];
    let ids = free_ids(workers);
    lemma_ids_no_duplicates(workers, wanted);
    assert forall|k: int| #![trigger free_ids(workers)[k]] 0 <= k < count implies exists|j: int|
        #![trigger workers[j]]
        0 <= j < workers.len() && workers[j].1 == Status::Free && workers[j].0 == free_ids(
            workers,
        )[k] by {
        lemma_ids_members(workers, wanted, k);
    }
    assert forall|j: int| 0 <= j < workers.len() implies ((#[trigger] after_dispatch(
        workers,
        count,
    )[j]).1 == Status::Busy) == (workers[j].1 == Status::Busy || (workers[j].1 == Status::Free
        && ids.take(count as int).contains(workers[j].0))) by {
        if workers[j].1 == Status::Free {
            lemma_ids_position(workers, wanted, j);
            let c = free_ids(workers.take(j)).len() as int;
            if c < count {
                assert(ids.take(count as int)[c] == workers[j].0);
            }
            if ids.take(count as int).contains(workers[j].0) {
                let p = choose|p: int| 0 <= p < count && ids.take(count as int)[p] == workers[j].0;
                assert(ids[p] == ids[c]);
            }
        }
    }
}

/// No operation on the workers changes which workers there are, nor their
/// order: freeing one, dispatching, releasing the unreachable ones and
/// releasing all of them keep every worker's id in its place.
pub proof fn lemma_worker_ids_are_kept(
    workers: Seq<(WorkerId, Status)>,
    id: WorkerId,
    count: nat,
    unreachable: Seq<WorkerId>,
)
    ensures
        worker_ids(with_status(workers, id, Status::Free)) == worker_ids(workers),
        worker_ids(after_dispatch(workers, count)) == worker_ids(workers),
        worker_ids(after_release(workers, unreachable)) == worker_ids(workers),
        worker_ids(all_released(workers)) == worker_ids(workers),
{
    assert(worker_ids(with_status(workers, id, Status::Free)) =~= worker_ids(workers));
    assert(worker_ids(after_dispatch(workers, count)) =~= worker_ids(workers));
    assert(worker_ids(after_release(workers, unreachable)) =~= worker_ids(workers));
    assert(worker_ids(all_released(workers)) =~= worker_ids(workers));
}

/// Once every worker has been released, no worker is busy or free, and
/// dispatching gives no task to any of them.
pub proof fn lemma_released_workers_get_no_task(workers: Seq<(WorkerId, Status)>, count: nat)
    ensures
        !some_busy(all_released(workers)),
        free_ids(all_released(workers)).len() == 0,
        after_dispatch(all_released(workers), count) == all_released(workers),
{
    let released = all_released(workers);
    lemma_none_wanted(released, set![Status::Free]);
    assert(after_dispatch(released, count) =~= released);
}

proof fn lemma_none_wanted(workers: Seq<(WorkerId, Status)>, wanted: Set<Status>)
    requires
        forall|j: int| 0 <= j < workers.len() ==> !wanted.contains(#[trigger] workers[j].1),
    ensures
        ids_with_status(workers, wanted).len() == 0,
    decreases workers.len(),
{
    if workers.len() > 0 {
        let rest = workers.drop_last();
        assert forall|j: int| 0 <= j < rest.len() implies !wanted.contains(#[trigger] rest[j].1) by {
            assert(rest[j] == workers[j]);
        }
        lemma_none_wanted(rest, wanted);
        assert(!wanted.contains(workers[workers.len() - 1].1));
    }
}

/// A dispatch right after a dispatch hands out nothing: the first one gave a
/// task to every free worker, or took every waiting task.
pub proof fn lemma_second_dispatch_sends_nothing<T>(workers: Seq<(WorkerId, Status)>, tasks: Seq<T>)
    ensures
        ({
            let count = min_nat(free_ids(workers).len(), tasks.len());
            dispatch_plan(
                after_dispatch(workers, count),
                tasks.take(tasks.len() - count),
            ).len() == 0
        }),
{
    let count = min_nat(free_ids(workers).len(), tasks.len());
    let after = after_dispatch(workers, count);
    if count == free_ids(workers).len() {
        lemma_take_all(workers);
        assert forall|j: int| 0 <= j < after.len() implies !set![Status::Free].contains(
            #[trigger] after[j].1,
        ) by {
            if workers[j].1 == Status::Free {
                lemma_ids_count_grows(workers, set![Status::Free], j, workers.len() as int);
            }
        }
        lemma_none_wanted(after, set![Status::Free]);
    }
}

/// Stopping the workers a second time hands out nothing and changes nothing.
pub proof fn lemma_second_stop_sends_nothing(workers: Seq<(WorkerId, Status)>)
    ensures
        active_ids(all_released(workers)).len() == 0,
        all_released(all_released(workers)) == all_released(workers),
{
    let released = all_released(workers);
    lemma_none_wanted(released, set![Status::Free, Status::Busy]);
    assert(all_released(released) =~= released);
}

/// A released worker is handed no task, no keep-alive message and no stop
/// message: it is neither free, nor busy, nor active.
pub proof fn lemma_released_worker_gets_no_message<T>(
    workers: Seq<(WorkerId, Status)>,
    tasks: Seq<T>,
    id: WorkerId,
)
    requires
        worker_ids(workers).no_duplicates(),
        status_in(workers, id) == Some(Status::Released),
    ensures
        !free_ids(workers).contains(id),
        !busy_ids(workers).contains(id),
        !active_ids(workers).contains(id),
        forall|k: int|
            0 <= k < dispatch_plan(workers, tasks).len() ==> (#[trigger] dispatch_plan(
                workers,
                tasks,
            )[k]).0 != id,
{
    let ids = worker_ids(workers);
    let at = ids.index_of(id);
    assert(0 <= at < workers.len() && ids[at] == id);
    assert forall|wanted: Set<Status>|
        !wanted.contains(Status::Released) implies !(#[trigger] ids_with_status(
            workers,
            wanted,
        )).contains(id) by {
        if ids_with_status(workers, wanted).contains(id) {
            let k = choose|k: int|
                0 <= k < ids_with_status(workers, wanted).len() && ids_with_status(
                    workers,
                    wanted,
                )[k] == id;
            lemma_ids_members(workers, wanted, k);
            let j = choose|j: int|
                #![trigger workers[j]]
                0 <= j < workers.len() && wanted.contains(workers[j].1) && workers[j].0
                    == ids_with_status(workers, wanted)[k];
            assert(ids[j] == ids[at]);
        }
    }
    assert(!set![Status::Free].contains(Status::Released));
    assert(!set![Status::Busy].contains(Status::Released));
    assert(!set![Status::Free, Status::Busy].contains(Status::Released));
    assert forall|k: int| 0 <= k < dispatch_plan(workers, tasks).len() implies (
    #[trigger] dispatch_plan(workers, tasks)[k]).0 != id by {
        assert(dispatch_plan(workers, tasks)[k].0 == free_ids(workers)[k]);
    }
}

/// Whether handing `message` to its worker fits the worker's status in
/// `workers`: a task only to a free worker, a keep-alive message only to a
/// busy one, and a stop message only to one not yet released.
pub open spec fn fits_protocol<T>(
    workers: Seq<(WorkerId, Status)>,
    message: (WorkerId, ControlToWorkerEvent<T>),
) -> bool {
    match message.1 {
        ControlToWorkerEvent::RunTask(_) => status_in(workers, message.0) == Some(Status::Free),
        ControlToWorkerEvent::KeepAlive => status_in(workers, message.0) == Some(Status::Busy),
        ControlToWorkerEvent::Stop => status_in(workers, message.0) == Some(Status::Free)
            || status_in(workers, message.0) == Some(Status::Busy),
    }
}

/// The worker selected `k`-th stands where `index_of` finds its id, with a
/// wanted status.
proof fn lemma_status_of_selected(workers: Seq<(WorkerId, Status)>, wanted: Set<Status>, k: int)
    requires
        worker_ids(workers).no_duplicates(),
        0 <= k < ids_with_status(workers, wanted).len(),
    ensures
        ({
            let id = ids_with_status(workers, wanted)[k];
            let j = worker_ids(workers).index_of(id);
            &&& worker_ids(workers).contains(id)
            &&& 0 <= j < workers.len()
            &&& workers[j].0 == id
            &&& wanted.contains(workers[j].1)
            &&& status_in(workers, id) == Some(workers[j].1)
        }),
{
    let id = ids_with_status(workers, wanted)[k];
    let ids = worker_ids(workers);
    lemma_ids_members(workers, wanted, k);
    let j0 = choose|j: int|
        #![trigger workers[j]]
        0 <= j < workers.len() && wanted.contains(workers[j].1) && workers[j].0 == id;
    assert(ids[j0] == id);
    let j = ids.index_of(id);
    assert(ids[j] == ids[j0]);
}

/// Each step of the controller hands its workers only messages that fit
/// their status, and leaves each worker in the status that the message
/// announces.  A dispatch hands one task each to distinct free workers,
/// which become busy; the keep-alive round reaches only busy workers; the
/// shutdown stops only workers not yet released, which become released.
/// With `lemma_released_worker_gets_no_message`, and since only a
/// `Complete` from a worker frees it again, a worker is handed a task only
/// when it is free, keep-alive messages only while it runs tasks, and
/// nothing after it was stopped.  The messages that the operations add to
/// `sent()` are the receipts of their calls of `send`, each on the channel
/// of the worker it names (`WorkersHolder::wf`).
pub proof fn lemma_messages_follow_protocol<T>(workers: Seq<(WorkerId, Status)>, tasks: Seq<T>)
    requires
        worker_ids(workers).no_duplicates(),
    ensures
        ({
            let plan = dispatch_plan(workers, tasks);
            let handed = run_messages(plan);
            &&& forall|k: int|
                0 <= k < handed.len() ==> fits_protocol(workers, #[trigger] handed[k])
                    && status_in(after_dispatch(workers, plan.len()), handed[k].0) == Some(
                    Status::Busy,
                )
            &&& handed.map_values(|m: (WorkerId, ControlToWorkerEvent<T>)| m.0).no_duplicates()
        }),
        forall|k: int|
            0 <= k < busy_ids(workers).len() ==> fits_protocol(
                workers,
                #[trigger] addressed(busy_ids(workers), ControlToWorkerEvent::<T>::KeepAlive)[k],
            ),
        forall|k: int|
            0 <= k < active_ids(workers).len() ==> fits_protocol(
                workers,
                #[trigger] addressed(active_ids(workers), ControlToWorkerEvent::<T>::Stop)[k],
            ) && status_in(all_released(workers), active_ids(workers)[k]) == Some(
                Status::Released,
            ),
{
    let free = set![Status::Free];
    let plan = dispatch_plan(workers, tasks);
    let count = plan.len();
    let handed = run_messages(plan);
    lemma_ids_no_duplicates(workers, free);
    lemma_worker_ids_are_kept(workers, 0, count, Seq::empty());
    assert forall|k: int| 0 <= k < handed.len() implies fits_protocol(workers, #[trigger] handed[k])
        && status_in(after_dispatch(workers, count), handed[k].0) == Some(Status::Busy) by {
        lemma_status_of_selected(workers, free, k);
        let id = free_ids(workers)[k];
        let j = worker_ids(workers).index_of(id);
        lemma_ids_position(workers, free, j);
        let c = free_ids(workers.take(j)).len() as int;
        assert(free_ids(workers)[c] == free_ids(workers)[k]);
        assert(handed[k] == (id, ControlToWorkerEvent::RunTask(plan[k].1)));
        assert(after_dispatch(workers, count)[j] == (id, Status::Busy));
    }
    let targets = handed.map_values(|m: (WorkerId, ControlToWorkerEvent<T>)| m.0);
    assert forall|a: int, b: int| 0 <= a < targets.len() && 0 <= b < targets.len() && a != b implies targets[a] != targets[b] by {
        assert(targets[a] == free_ids(workers)[a]);
        assert(targets[b] == free_ids(workers)[b]);
    }
    assert forall|k: int| 0 <= k < busy_ids(workers).len() implies fits_protocol(
        workers,
        #[trigger] addressed(busy_ids(workers), ControlToWorkerEvent::<T>::KeepAlive)[k],
    ) by {
        lemma_status_of_selected(workers, set![Status::Busy], k);
    }
    lemma_worker_ids_are_kept(workers, 0, 0, Seq::empty());
    assert forall|k: int| 0 <= k < active_ids(workers).len() implies fits_protocol(
        workers,
        #[trigger] addressed(active_ids(workers), ControlToWorkerEvent::<T>::Stop)[k],
    ) && status_in(all_released(workers), active_ids(workers)[k]) == Some(Status::Released) by {
        lemma_status_of_selected(workers, set![Status::Free, Status::Busy], k);
        let id = active_ids(workers)[k];
        let j = worker_ids(workers).index_of(id);
        assert(all_released(workers)[j] == (id, Status::Released));
    }
}

/// The keep-alive round releases exactly the busy workers whose channel did
/// not take their message: with `answers[k]` the answer of the channel of the
/// `k`-th busy worker, that worker stays busy when its answer is `true` and
/// is released when it is `false`; every other worker keeps its status; and
/// some worker is released exactly when some answer is `false`.
pub proof fn lemma_keep_alive_releases_exactly_the_unreachable(
    workers: Seq<(WorkerId, Status)>,
    answers: Seq<bool>,
)
    requires
        worker_ids(workers).no_duplicates(),
        answers.len() == busy_ids(workers).len(),
    ensures
        worker_ids(after_keep_alive(workers, answers)) == worker_ids(workers),
        forall|k: int|
            0 <= k < busy_ids(workers).len() ==> status_in(
                after_keep_alive(workers, answers),
                #[trigger] busy_ids(workers)[k],
            ) == if answers[k] {
                Some(Status::Busy)
            } else {
                Some(Status::Released)
            },
        forall|id: WorkerId|
            !busy_ids(workers).contains(id) ==> #[trigger] status_in(
                after_keep_alive(workers, answers),
                id,
            ) == status_in(workers, id),
        (exists|j: int|
            0 <= j < workers.len() && workers[j].1 == Status::Busy && #[trigger] after_keep_alive(
                workers,
                answers,
            )[j].1 == Status::Released) == answers.contains(false),
{
    let busy = set![Status::Busy];
    let after = after_keep_alive(workers, answers);
    assert(worker_ids(after) =~= worker_ids(workers));
    lemma_ids_no_duplicates(workers, busy);
    assert forall|k: int| 0 <= k < busy_ids(workers).len() implies status_in(
        after,
        #[trigger] busy_ids(workers)[k],
    ) == if answers[k] {
        Some(Status::Busy)
    } else {
        Some(Status::Released)
    } by {
        lemma_status_of_selected(workers, busy, k);
        let j = worker_ids(workers).index_of(busy_ids(workers)[k]);
        lemma_ids_position(workers, busy, j);
        let c = busy_ids(workers.take(j)).len() as int;
        assert(busy_ids(workers)[c] == busy_ids(workers)[k]);
    }
    assert forall|id: WorkerId| !busy_ids(workers).contains(id) implies #[trigger] status_in(
        after,
        id,
    ) == status_in(workers, id) by {
        if worker_ids(workers).contains(id) {
            let j = worker_ids(workers).index_of(id);
            if workers[j].1 == Status::Busy {
                lemma_ids_position(workers, busy, j);
                let c = busy_ids(workers.take(j)).len() as int;
                assert(busy_ids(workers)[c] == id);
            }
        }
    }
    if exists|j: int|
        0 <= j < workers.len() && workers[j].1 == Status::Busy && #[trigger] after[j].1
            == Status::Released {
        let j = choose|j: int|
            0 <= j < workers.len() && workers[j].1 == Status::Busy && #[trigger] after[j].1
                == Status::Released;
        lemma_ids_position(workers, busy, j);
        let c = busy_ids(workers.take(j)).len() as int;
        assert(answers[c] == false);
    }
    if answers.contains(false) {
        let k = choose|k: int| 0 <= k < answers.len() && answers[k] == false;
        lemma_status_of_selected(workers, busy, k);
        let j = worker_ids(workers).index_of(busy_ids(workers)[k]);
        lemma_ids_position(workers, busy, j);
        let c = busy_ids(workers.take(j)).len() as int;
        assert(busy_ids(workers)[c] == busy_ids(workers)[k]);
        assert(after[j].1 == Status::Released);
    }
}

/// Whether `id` is one of `ids`.
fn contains_id(ids: &Vec<WorkerId>, id: WorkerId) -> (r: bool)
    ensures
        r == ids@.contains(id),
{
    let mut i: usize = 0;
    while i < ids.len()
        invariant
            i <= ids@.len(),
            forall|j: int| 0 <= j < i ==> #[trigger] ids@[j] != id,
        decreases ids@.len() - i,
    {
        if ids[i] == id {
            assert(ids@[i as int] == id);
            return true;
        }
        i = i + 1;
    }
    false
}

impl<T> View for WorkersHolder<T> {
    type V = Seq<(WorkerId, Status)>;

    closed spec fn view(&self) -> Seq<(WorkerId, Status)> {
        self.slots@.map_values(|s: Slot<T>| (s.id, s.status))
    }
}

impl<T> WorkersHolder<T> {
    /// The channels that reach the workers, in the order of the workers.
    pub closed spec fn channels(&self) -> Seq<Sender<ControlToWorkerEvent<T>>> {
        self.slots@.map_values(|s: Slot<T>| s.channel)
    }

    /// The receipts of every call of `send` that the holder made so far,
    /// in order, each with the id of the worker whose channel it used.
    pub closed spec fn receipts(&self) -> Seq<(WorkerId, SendReceipt<ControlToWorkerEvent<T>>)> {
        self.sent@
    }

    /// The messages handed to the workers' channels so far, each with the id
    /// of its worker, in order, as the receipts of `send` give them.
    pub open spec fn sent(&self) -> Seq<(WorkerId, ControlToWorkerEvent<T>)> {
        self.receipts().map_values(
            |r: (WorkerId, SendReceipt<ControlToWorkerEvent<T>>)| (r.0, r.1.event()),
        )
    }

    /// Whether each message of `sent()` was taken by its channel, as the
    /// receipts of `send` give it.
    pub open spec fn answers(&self) -> Seq<bool> {
        self.receipts().map_values(|r: (WorkerId, SendReceipt<ControlToWorkerEvent<T>>)| r.1.taken())
    }

    /// The channel of the worker `id`.
    pub open spec fn channel_of(&self, id: WorkerId) -> Sender<ControlToWorkerEvent<T>> {
        self.channels()[worker_ids(self@).index_of(id)]
    }

    /// The holder's invariant: one channel per worker, no worker twice, and
    /// every receipt of `send` names a known worker and that worker's own
    /// channel.
    pub open spec fn wf(&self) -> bool {
        &&& self.channels().len() == self@.len()
        &&& worker_ids(self@).no_duplicates()
        &&& forall|k: int|
            0 <= k < self.receipts().len() ==> worker_ids(self@).contains(
                (#[trigger] self.receipts()[k]).0,
            ) && self.receipts()[k].1.channel() == self.channel_of(self.receipts()[k].0)
    }


    proof fn lemma_view_len(&self)
        ensures
            self@.len() == self.slots@.len(),
            self.channels().len() == self.slots@.len(),
            worker_ids(self@).len() == self.slots@.len(),
            forall|i: int|
                0 <= i < self.slots@.len() ==> #[trigger] self@[i] == (
                    self.slots@[i].id,
                    self.slots@[i].status,
                ) && self.channels()[i] == self.slots@[i].channel && worker_ids(self@)[i]
                    == self.slots@[i].id,
    {
    }

    /// Every message in `sent()` is the message of a receipt of `send`, which
    /// was handed to the channel of the worker it names.
    pub proof fn lemma_sent_on_own_channels(&self)
        requires
            self.wf(),
        ensures
            self.sent().len() == self.receipts().len(),
            self.answers().len() == self.receipts().len(),
            forall|k: int|
                0 <= k < self.sent().len() ==> worker_ids(self@).contains(
                    (#[trigger] self.sent()[k]).0,
                ) && self.receipts()[k].0 == self.sent()[k].0 && self.receipts()[k].1.channel()
                    == self.channel_of(self.sent()[k].0) && self.receipts()[k].1.event()
                    == self.sent()[k].1 && self.receipts()[k].1.taken() == self.answers()[k],
    {
        assert forall|k: int| 0 <= k < self.sent().len() implies worker_ids(self@).contains(
            (#[trigger] self.sent()[k]).0,
        ) && self.receipts()[k].0 == self.sent()[k].0 && self.receipts()[k].1.channel()
            == self.channel_of(self.sent()[k].0) && self.receipts()[k].1.event()
            == self.sent()[k].1 && self.receipts()[k].1.taken() == self.answers()[k] by {
            assert(self.receipts()[k].0 == self.sent()[k].0);
        }
    }

    /// The receipts behind messages `msgs` that `sent()` ends with: each was
    /// made by `send` on the channel of the worker it names, with that message.
    proof fn lemma_receipts_of(&self, earlier: Seq<(WorkerId, ControlToWorkerEvent<T>)>, msgs: Seq<(WorkerId, ControlToWorkerEvent<T>)>)
        requires
            self.wf(),
            self.sent() == earlier + msgs,
        ensures
            forall|k: int|
                0 <= k < msgs.len() ==> (#[trigger] self.receipts()[earlier.len() + k]).1.channel()
                    == self.channel_of(msgs[k].0) && self.receipts()[earlier.len() + k].1.event()
                    == msgs[k].1,
    {
        self.lemma_sent_on_own_channels();
        assert forall|k: int| 0 <= k < msgs.len() implies (
        #[trigger] self.receipts()[earlier.len() + k]).1.channel() == self.channel_of(msgs[k].0)
            && self.receipts()[earlier.len() + k].1.event() == msgs[k].1 by {
            assert(self.sent()[earlier.len() + k] == msgs[k]);
        }
    }

    /// A holder of the workers `workers`, each given as its id and the channel
    /// that reaches it, all free.
    pub fn new(workers: Vec<(WorkerId, Sender<ControlToWorkerEvent<T>>)>) -> (r: Self)
        requires
            workers@.map_values(|w: (WorkerId, Sender<ControlToWorkerEvent<T>>)| w.0).no_duplicates(),
        ensures
            r.wf(),
            worker_ids(r@) == workers@.map_values(
                |w: (WorkerId, Sender<ControlToWorkerEvent<T>>)| w.0,
            ),
            r.channels() == workers@.map_values(
                |w: (WorkerId, Sender<ControlToWorkerEvent<T>>)| w.1,
            ),
            forall|i: int| 0 <= i < r@.len() ==> #[trigger] r@[i].1 == Status::Free,
            r.sent() == Seq::<(WorkerId, ControlToWorkerEvent<T>)>::empty(),
    {
        let ghost given = workers@;
        let mut rest = workers;
        let mut slots: Vec<Slot<T>> = Vec::new();
        while rest.len() > 0
            invariant
                slots@.len() + rest@.len() == given.len(),
                forall|i: int|
                    #![trigger slots@[i]]
                    0 <= i < slots@.len() ==> (slots@[i].id == given[i].0
                        && slots@[i].channel == given[i].1 && slots@[i].status == Status::Free),
                forall|i: int|
                    0 <= i < rest@.len() ==> #[trigger] rest@[i] == given[i + slots@.len()],
            decreases rest@.len(),
        {
            assert(rest@[0] == given[0 + slots@.len() as int]);
            let worker = rest.remove(0);
            assert(worker == given[slots@.len() as int]);
            let slot = Slot { id: worker.0, status: Status::Free, channel: worker.1 };
            assert(slot.channel == given[slots@.len() as int].1);
            slots.push(slot);
        }
        let r = WorkersHolder { slots, sent: Ghost(Seq::empty()) };
        proof {
            r.lemma_view_len();
            assert(worker_ids(r@) =~= given.map_values(
                |w: (WorkerId, Sender<ControlToWorkerEvent<T>>)| w.0,
            ));
            assert(r.channels() =~= given.map_values(
                |w: (WorkerId, Sender<ControlToWorkerEvent<T>>)| w.1,
            ));
        }
        r
    }

    /// Where the worker `id` stands in the holder, if it is there.
    fn position(&self, id: WorkerId) -> (r: Option<usize>)
        requires
            self.wf(),
        ensures
            r is None ==> !worker_ids(self@).contains(id),
            r matches Some(i) ==> i < self@.len() && self@[i as int].0 == id && worker_ids(
                self@,
            ).index_of(id) == i,
    {
        proof {
            self.lemma_view_len();
        }
        let mut i: usize = 0;
        while i < self.slots.len()
            invariant
                self.wf(),
                i <= self.slots@.len(),
                forall|j: int| 0 <= j < i ==> #[trigger] worker_ids(self@)[j] != id,
            decreases self.slots@.len() - i,
        {
            proof {
                self.lemma_view_len();
            }
            if self.slots[i].id == id {
                proof {
                    let ids = worker_ids(self@);
                    assert(ids[i as int] == id);
                    assert(ids.contains(id));
                    let k = ids.index_of(id);
                    assert(ids[k] == id);
                }
                return Some(i);
            }
            i = i + 1;
        }
        proof {
            self.lemma_view_len();
        }
        None
    }

    /// The number of workers.
    pub fn len(&self) -> (r: usize)
        requires
            self.wf(),
        ensures
            r == self@.len(),
    {
        proof {
            self.lemma_view_len();
        }
        self.slots.len()
    }

    /// The status of the worker `id`, or `None` when the holder does not know
    /// it.
    pub fn status(&self, id: WorkerId) -> (r: Option<Status>)
        requires
            self.wf(),
        ensures
            r == status_in(self@, id),
    {
        match self.position(id) {
            None => None,
            Some(i) => {
                proof {
                    self.lemma_view_len();
                }
                Some(self.slots[i].status)
            },
        }
    }

    /// Marks the worker `id` free again.  Fails with `Error::WorkerNotFound`
    /// when the holder does not know `id`.
    pub fn free_worker(&mut self, id: WorkerId) -> (r: Result<(), Error>)
        requires
            old(self).wf(),
        ensures
            final(self).wf(),
            final(self).channels() == old(self).channels(),
            final(self).sent() == old(self).sent(),
            final(self).receipts() == old(self).receipts(),
            worker_ids(old(self)@).contains(id) ==> r is Ok && final(self)@ == with_status(
                old(self)@,
                id,
                Status::Free,
            ),
            !worker_ids(old(self)@).contains(id) ==> r == Err::<(), Error>(
                Error::WorkerNotFound { id },
            ) && final(self)@ == old(self)@,
    {
        match self.position(id) {
            None => Err(Error::WorkerNotFound { id }),
            Some(i) => {
                proof {
                    self.lemma_view_len();
                }
                self.slots[i].status = Status::Free;
                proof {
                    self.lemma_view_len();
                    old(self).lemma_view_len();
                    assert(self.channels() =~= old(self).channels());
                    assert forall|j: int| 0 <= j < old(self)@.len() && j != i implies #[trigger] old(self)@[j].0 != id by {
                        assert(worker_ids(old(self)@)[j] != worker_ids(old(self)@)[i as int]);
                    }
                    assert(self@ =~= with_status(old(self)@, id, Status::Free));
                    assert(worker_ids(self@) =~= worker_ids(old(self)@));
                    assert(self.receipts() == old(self).receipts());
                    assert forall|k: int| 0 <= k < self.receipts().len() implies worker_ids(
                        self@,
                    ).contains((#[trigger] self.receipts()[k]).0) && self.receipts()[k].1.channel()
                        == self.channel_of(self.receipts()[k].0) by {
                        assert(old(self).receipts()[k] == self.receipts()[k]);
                    }
                }
                Ok(())
            },
        }
    }

    /// Whether some worker runs a task.
    pub fn has_busy_workers(&self) -> (r: bool)
        requires
            self.wf(),
        ensures
            r == some_busy(self@),
    {
        proof {
            self.lemma_view_len();
        }
        let mut i: usize = 0;
        while i < self.slots.len()
            invariant
                self.wf(),
                i <= self.slots@.len(),
                forall|j: int| 0 <= j < i ==> #[trigger] self@[j].1 != Status::Busy,
            decreases self.slots@.len() - i,
        {
            proof {
                self.lemma_view_len();
            }
            if self.slots[i].status == Status::Busy {
                assert(self@[i as int].1 == Status::Busy);
                return true;
            }
            i = i + 1;
        }
        false
    }
    /// Gives the tasks at the back of `queue` to the free workers, one task
    /// each: the `j`-th free worker gets the `j`-th task from the back, until
    /// the free workers or the tasks run out.  Those workers become busy.
    /// Returns each worker that got a task with its task.
    pub fn assign_tasks(&mut self, queue: &mut TaskContainer<T>) -> (r: Vec<(WorkerId, T)>)
        requires
            old(self).wf(),
        ensures
            final(self).wf(),
            final(self).channels() == old(self).channels(),
            final(self).sent() == old(self).sent(),
            final(self).receipts() == old(self).receipts(),
            r@ == dispatch_plan(old(self)@, old(queue)@),
            r@.map_values(|a: (WorkerId, T)| a.1) == taken_from_back(old(queue)@, r@.len()),
            final(queue)@ == old(queue)@.take(old(queue)@.len() - r@.len()),
            final(self)@ == after_dispatch(old(self)@, r@.len()),
    {
        let ghost w0 = self@;
        let ghost q0 = queue@;
        let ghost c0 = self.channels();
        let ghost s0 = self.sent();
        let ghost wanted = set![Status::Free];
        proof {
            self.lemma_view_len();
            lemma_take_all(w0);
        }
        let mut r: Vec<(WorkerId, T)> = Vec::new();
        let mut i: usize = 0;
        while i < self.slots.len()
            invariant
                self.wf(),
                self.channels() == c0,
                self.sent() == s0,
                self.receipts() == old(self).receipts(),
                self.slots@.len() == w0.len(),
                w0.take(w0.len() as int) == w0,
                wanted == set![Status::Free],
                i <= w0.len(),
                r@.len() <= free_ids(w0.take(i as int)).len(),
                r@.len() == free_ids(w0.take(i as int)).len() || r@.len() == q0.len(),
                r@.len() <= q0.len(),
                queue@ == q0.take(q0.len() - r@.len()),
                forall|j: int|
                    0 <= j < r@.len() ==> #[trigger] r@[j] == (free_ids(w0)[j], q0[q0.len() - 1 - j]),
                forall|j: int|
                    0 <= j < i ==> #[trigger] self@[j] == if w0[j].1 == Status::Free && free_ids(
                        w0.take(j),
                    ).len() < r@.len() {
                        (w0[j].0, Status::Busy)
                    } else {
                        w0[j]
                    },
                forall|j: int| i <= j < w0.len() ==> #[trigger] self@[j] == w0[j],
            decreases w0.len() - i,
        {
            proof {
                self.lemma_view_len();
                lemma_ids_step(w0, wanted, i as int);
                lemma_ids_prefix(w0, wanted, i as int + 1, w0.len() as int);
            }
            let ghost r_before = r@;
            let ghost self_before = self@;
            assert(self@[i as int] == w0[i as int]);
            if self.slots[i].status == Status::Free {
                assert(w0[i as int].1 == Status::Free);
                assert(wanted.contains(w0[i as int].1));
                match queue.pop_back() {
                    None => {},
                    Some(task) => {
                        assert(r@.len() == free_ids(w0.take(i as int)).len());
                        assert(task == q0[q0.len() - 1 - r@.len()]);
                        assert(ids_with_status(w0.take(i as int + 1), wanted)[r@.len() as int] == w0[i as int].0);
                        assert(ids_with_status(w0.take(w0.len() as int), wanted)[r@.len() as int] == w0[i as int].0);
                        assert(free_ids(w0)[r@.len() as int] == w0[i as int].0);
                        let id = self.slots[i].id;
                        self.slots[i].status = Status::Busy;
                        r.push((id, task));
                        proof {
                            self.lemma_view_len();
                            assert(self.channels() =~= c0);
                            assert(queue@ =~= q0.take(q0.len() - r@.len()));
                            assert forall|j: int| 0 <= j < i implies #[trigger] self@[j] == if w0[j].1 == Status::Free && free_ids(
                                w0.take(j),
                            ).len() < r@.len() {
                                (w0[j].0, Status::Busy)
                            } else {
                                w0[j]
                            } by {
                                assert(self@[j] == self_before[j]);
                                if w0[j].1 == Status::Free {
                                    lemma_ids_count_grows(w0, wanted, j, i as int);
                                }
                            }
                            assert(worker_ids(self@) =~= worker_ids(self_before));
                        }
                    },
                }
            }
            i = i + 1;
        }
        proof {
            self.lemma_view_len();
            assert(self@ =~= after_dispatch(w0, r@.len()));
            assert(r@.map_values(|a: (WorkerId, T)| a.1) =~= taken_from_back(q0, r@.len()));
            assert(r@ =~= dispatch_plan(w0, q0));
        }
        r
    }

    /// Hands `event` to the channel of the worker at position `i`, and keeps
    /// the receipt of that call of `send`.  Returns `send`'s answer, whether the
    /// channel took the message, of which nothing is known: it is up to the
    /// worker's thread.
    fn send_to(&mut self, i: usize, event: ControlToWorkerEvent<T>) -> (delivered: bool)
        requires
            old(self).wf(),
            i < old(self)@.len(),
        ensures
            final(self).wf(),
            final(self)@ == old(self)@,
            final(self).channels() == old(self).channels(),
            final(self).receipts().len() == old(self).receipts().len() + 1,
            final(self).receipts().drop_last() == old(self).receipts(),
            final(self).receipts().last().0 == old(self)@[i as int].0,
            final(self).receipts().last().1.channel() == old(self).channels()[i as int],
            final(self).receipts().last().1.event() == event,
            final(self).receipts().last().1.taken() == delivered,
            final(self).sent() == old(self).sent().push((old(self)@[i as int].0, event)),
            final(self).answers() == old(self).answers().push(delivered),
    {
        proof {
            self.lemma_view_len();
        }
        let id = self.slots[i].id;
        let (delivered, receipt) = send_event(&self.slots[i].channel, event);
        proof {
            let ids = worker_ids(self@);
            assert(ids[i as int] == id);
            assert(ids.contains(id));
            assert(ids[ids.index_of(id)] == ids[i as int]);
            let before = self.sent@;
            self.sent@ = self.sent@.push((id, receipt));
            assert(self.sent@.drop_last() =~= before);
            assert(self.sent() =~= old(self).sent().push((id, event)));
            assert(self.answers() =~= old(self).answers().push(delivered));
            assert forall|k: int| 0 <= k < self.receipts().len() implies worker_ids(self@).contains(
                (#[trigger] self.receipts()[k]).0,
            ) && self.receipts()[k].1.channel() == self.channel_of(self.receipts()[k].0) by {
                if k < before.len() {
                    assert(self.receipts()[k] == before[k]);
                }
            }
        }
        delivered
    }

    /// Gives the tasks at the back of `queue` to the free workers as
    /// `assign_tasks` does, and hands each task, in a `RunTask` message, to
    /// its worker's channel, in the order of the plan.
    pub fn run_tasks(&mut self, queue: &mut TaskContainer<T>)
        requires
            old(self).wf(),
        ensures
            final(self).wf(),
            final(self).channels() == old(self).channels(),
            final(queue)@ == old(queue)@.take(
                old(queue)@.len() - min_nat(free_ids(old(self)@).len(), old(queue)@.len()),
            ),
            final(self)@ == after_dispatch(
                old(self)@,
                min_nat(free_ids(old(self)@).len(), old(queue)@.len()),
            ),
            final(self).sent() == old(self).sent() + run_messages(
                dispatch_plan(old(self)@, old(queue)@),
            ),
            final(self).receipts().len() >= old(self).receipts().len(),
            final(self).receipts().take(old(self).receipts().len() as int) == old(self).receipts(),
            final(self).answers().take(old(self).answers().len() as int) == old(self).answers(),
            forall|k: int|
                0 <= k < dispatch_plan(old(self)@, old(queue)@).len() ==> (
                #[trigger] final(self).receipts()[old(self).sent().len() + k]).1.channel()
                    == old(self).channel_of(dispatch_plan(old(self)@, old(queue)@)[k].0)
                    && final(self).receipts()[old(self).sent().len() + k].1.event()
                    == ControlToWorkerEvent::RunTask(dispatch_plan(old(self)@, old(queue)@)[k].1),
    {
        let ghost w0 = self@;
        let mut assigned = self.assign_tasks(queue);
        let planned = assigned.len();
        let ghost plan = assigned@;
        let ghost s1 = self.sent();
        let ghost w1 = self@;
        proof {
            self.lemma_view_len();
            assert forall|k: int| 0 <= k < plan.len() implies worker_ids(w1).contains(
                #[trigger] plan[k].0,
            ) by {
                lemma_ids_members(w0, set![Status::Free], k);
                let j = choose|j: int|
                    #![trigger w0[j]]
                    0 <= j < w0.len() && set![Status::Free].contains(w0[j].1) && w0[j].0
                        == ids_with_status(w0, set![Status::Free])[k];
                assert(worker_ids(w1)[j] == w0[j].0);
            }
        }
        let mut done: usize = 0;
        while assigned.len() > 0
            invariant
                self.wf(),
                self@ == w1,
                self.channels() == old(self).channels(),
                done + assigned@.len() == plan.len(),
                plan.len() == planned,
                forall|k: int| 0 <= k < assigned@.len() ==> #[trigger] assigned@[k] == plan[k + done],
                forall|k: int|
                    0 <= k < plan.len() ==> worker_ids(w1).contains(#[trigger] plan[k].0),
                self.sent() == s1 + run_messages(plan.take(done as int)),
                self.receipts().len() >= old(self).receipts().len(),
                self.receipts().take(old(self).receipts().len() as int) == old(self).receipts(),
            decreases assigned@.len(),
        {
            assert(assigned@[0] == plan[0 + done as int]);
            let (id, task) = assigned.remove(0);
            match self.position(id) {
                Some(i) => {
                    let ghost receipts_before = self.receipts();
                    let _delivered = self.send_to(i, ControlToWorkerEvent::RunTask(task));
                    proof {
                        assert(self.receipts().take(old(self).receipts().len() as int)
                            =~= receipts_before.take(old(self).receipts().len() as int));
                        assert(plan.take(done as int + 1) =~= plan.take(done as int).push(plan[done as int]));
                        assert(run_messages(plan.take(done as int + 1)) =~= run_messages(
                            plan.take(done as int),
                        ).push((id, ControlToWorkerEvent::RunTask(task))));
                    }
                },
                None => {
                    assert(worker_ids(w1).contains(plan[done as int].0));
                },
            }
            done = done + 1;
        }
        proof {
            assert(plan.take(done as int) =~= plan);
            assert(self.answers().take(old(self).answers().len() as int) =~= old(self).answers());
            let msgs = run_messages(dispatch_plan(old(self)@, old(queue)@));
            self.lemma_receipts_of(old(self).sent(), msgs);
            assert(worker_ids(self@) =~= worker_ids(old(self)@)) by {
                lemma_worker_ids_are_kept(old(self)@, 0, plan.len(), Seq::empty());
            }
            assert forall|k: int| 0 <= k < plan.len() implies #[trigger] msgs[k] == (
                plan[k].0,
                ControlToWorkerEvent::RunTask(plan[k].1),
            ) by {}
        }
    }

    /// The ids of the busy workers, in order.
    pub fn busy_workers(&self) -> (r: Vec<WorkerId>)
        requires
            self.wf(),
        ensures
            r@ == busy_ids(self@),
    {
        let ghost wanted = set![Status::Busy];
        proof {
            self.lemma_view_len();
            lemma_take_all(self@);
        }
        let mut r: Vec<WorkerId> = Vec::new();
        let mut i: usize = 0;
        while i < self.slots.len()
            invariant
                self.wf(),
                wanted == set![Status::Busy],
                i <= self@.len(),
                self.slots@.len() == self@.len(),
                self@.take(self@.len() as int) == self@,
                r@ == ids_with_status(self@.take(i as int), wanted),
            decreases self@.len() - i,
        {
            proof {
                self.lemma_view_len();
                lemma_ids_step(self@, wanted, i as int);
            }
            if self.slots[i].status == Status::Busy {
                r.push(self.slots[i].id);
            }
            i = i + 1;
        }
        r
    }

    /// Releases the busy workers whose ids are in `unreachable`.  Returns
    /// whether it released one.
    pub fn release_unreachable(&mut self, unreachable: &Vec<WorkerId>) -> (r: bool)
        requires
            old(self).wf(),
        ensures
            final(self).wf(),
            final(self).channels() == old(self).channels(),
            final(self).sent() == old(self).sent(),
            final(self).receipts() == old(self).receipts(),
            final(self)@ == after_release(old(self)@, unreachable@),
            r == exists|j: int|
                0 <= j < old(self)@.len() && #[trigger] old(self)@[j].1 == Status::Busy
                    && unreachable@.contains(old(self)@[j].0),
    {
        let ghost w0 = self@;
        let ghost c0 = self.channels();
        let ghost s0 = self.sent();
        proof {
            self.lemma_view_len();
        }
        let mut released = false;
        let mut i: usize = 0;
        while i < self.slots.len()
            invariant
                self.wf(),
                self.channels() == c0,
                self.sent() == s0,
                self.receipts() == old(self).receipts(),
                self.slots@.len() == w0.len(),
                i <= w0.len(),
                forall|j: int|
                    0 <= j < i ==> #[trigger] self@[j] == after_release(w0, unreachable@)[j],
                forall|j: int| i <= j < w0.len() ==> #[trigger] self@[j] == w0[j],
                released == exists|j: int|
                    0 <= j < i && #[trigger] w0[j].1 == Status::Busy && unreachable@.contains(
                        w0[j].0,
                    ),
            decreases w0.len() - i,
        {
            proof {
                self.lemma_view_len();
            }
            let ghost before = self@;
            assert(self@[i as int] == w0[i as int]);
            if self.slots[i].status == Status::Busy && contains_id(unreachable, self.slots[i].id) {
                self.slots[i].status = Status::Released;
                released = true;
                assert(w0[i as int].1 == Status::Busy && unreachable@.contains(w0[i as int].0));
                proof {
                    self.lemma_view_len();
                    assert(self.channels() =~= c0);
                    assert forall|j: int| 0 <= j < w0.len() && j != i implies #[trigger] self@[j] == before[j] by {}
                    assert(worker_ids(self@) =~= worker_ids(before));
                }
            }
            i = i + 1;
        }
        proof {
            self.lemma_view_len();
            assert(self@ =~= after_release(w0, unreachable@));
        }
        released
    }

    /// Hands a keep-alive message to the channel of every busy worker, in
    /// order, and releases exactly those busy workers whose channel did not
    /// take it.  Returns whether it released one.  Which channels take the
    /// message depends on the workers' threads; the answers appear in
    /// `answers()`, one per busy worker, and the releases are stated in terms
    /// of them.
    pub fn keep_alive(&mut self) -> (r: bool)
        requires
            old(self).wf(),
        ensures
            final(self).wf(),
            final(self).channels() == old(self).channels(),
            final(self).sent() == old(self).sent() + addressed(
                busy_ids(old(self)@),
                ControlToWorkerEvent::KeepAlive,
            ),
            final(self).answers().len() == old(self).answers().len() + busy_ids(old(self)@).len(),
            final(self).answers().take(old(self).answers().len() as int) == old(self).answers(),
            forall|k: int|
                0 <= k < busy_ids(old(self)@).len() ==> (#[trigger] final(self).receipts()[old(self).sent().len() + k]).1.channel() == old(self).channel_of(busy_ids(old(self)@)[k])
                    && final(self).receipts()[old(self).sent().len() + k].1.event()
                    == ControlToWorkerEvent::<T>::KeepAlive,
            final(self)@ == after_keep_alive(
                old(self)@,
                final(self).answers().skip(old(self).answers().len() as int),
            ),
            final(self)@.len() == old(self)@.len(),
            forall|j: int|
                0 <= j < old(self)@.len() ==> #[trigger] final(self)@[j] == old(self)@[j] || (
                old(self)@[j].1 == Status::Busy && final(self)@[j] == (
                    old(self)@[j].0,
                    Status::Released,
                )),
            r == exists|j: int|
                0 <= j < old(self)@.len() && old(self)@[j].1 == Status::Busy
                    && #[trigger] final(self)@[j].1 == Status::Released,
            !r ==> final(self)@ == old(self)@,
    {
        let ghost w0 = self@;
        let ghost s0 = self.sent();
        let ghost a0 = self.answers();
        let ghost c0 = self.channels();
        let ghost wanted = set![Status::Busy];
        let ghost mut ans: Seq<bool> = Seq::empty();
        proof {
            self.lemma_view_len();
            lemma_take_all(w0);
            assert(a0 + ans =~= a0);
        }
        let mut released = false;
        let mut i: usize = 0;
        while i < self.slots.len()
            invariant
                self.wf(),
                self.channels() == c0,
                self.slots@.len() == w0.len(),
                w0.take(w0.len() as int) == w0,
                wanted == set![Status::Busy],
                i <= w0.len(),
                self.sent() == s0 + addressed(
                    ids_with_status(w0.take(i as int), wanted),
                    ControlToWorkerEvent::KeepAlive,
                ),
                self.answers() == a0 + ans,
                ans.len() == ids_with_status(w0.take(i as int), wanted).len(),
                forall|j: int|
                    0 <= j < i ==> #[trigger] self@[j] == if w0[j].1 == Status::Busy && !ans[busy_ids(
                        w0.take(j),
                    ).len() as int] {
                        (w0[j].0, Status::Released)
                    } else {
                        w0[j]
                    },
                forall|j: int| i <= j < w0.len() ==> #[trigger] self@[j] == w0[j],
                released == exists|j: int|
                    0 <= j < i && #[trigger] w0[j].1 == Status::Busy && !ans[busy_ids(
                        w0.take(j),
                    ).len() as int],
            decreases w0.len() - i,
        {
            proof {
                self.lemma_view_len();
                lemma_ids_step(w0, wanted, i as int);
            }
            let ghost before = self@;
            let ghost ans_before = ans;
            assert(self@[i as int] == w0[i as int]);
            if self.slots[i].status == Status::Busy {
                let id = self.slots[i].id;
                let delivered = self.send_to(i, ControlToWorkerEvent::KeepAlive);
                proof {
                    ans = ans.push(delivered);
                    assert(self.answers() =~= a0 + ans);
                    assert(addressed(
                        ids_with_status(w0.take(i as int + 1), wanted),
                        ControlToWorkerEvent::<T>::KeepAlive,
                    ) =~= addressed(
                        ids_with_status(w0.take(i as int), wanted),
                        ControlToWorkerEvent::<T>::KeepAlive,
                    ).push((id, ControlToWorkerEvent::KeepAlive)));
                    assert forall|j: int| 0 <= j < i && w0[j].1 == Status::Busy implies ans[busy_ids(
                        w0.take(j),
                    ).len() as int] == ans_before[busy_ids(w0.take(j)).len() as int] by {
                        lemma_ids_count_grows(w0, wanted, j, i as int);
                    }
                    assert(ans[busy_ids(w0.take(i as int)).len() as int] == delivered);
                }
                if !delivered {
                    self.slots[i].status = Status::Released;
                    released = true;
                    proof {
                        self.lemma_view_len();
                        assert(self.channels() =~= c0);
                        assert forall|j: int| 0 <= j < w0.len() && j != i implies #[trigger] self@[j]
                            == before[j] by {}
                        assert(worker_ids(self@) =~= worker_ids(before));
                        assert forall|k: int| 0 <= k < self.receipts().len() implies worker_ids(
                            self@,
                        ).contains((#[trigger] self.receipts()[k]).0) && self.receipts()[k].1.channel()
                            == self.channel_of(self.receipts()[k].0) by {}
                    }
                }
            }
            i = i + 1;
        }
        proof {
            self.lemma_view_len();
            let fresh = self.answers().skip(a0.len() as int);
            assert(fresh =~= ans);
            assert(self.answers().take(a0.len() as int) =~= a0);
            assert(self@ =~= after_keep_alive(w0, fresh));
            self.lemma_receipts_of(s0, addressed(busy_ids(w0), ControlToWorkerEvent::<T>::KeepAlive));
            assert(worker_ids(self@) =~= worker_ids(w0));
            if released {
                let j = choose|j: int|
                    0 <= j < w0.len() && #[trigger] w0[j].1 == Status::Busy && !ans[busy_ids(
                        w0.take(j),
                    ).len() as int];
                assert(self@[j].1 == Status::Released);
            }
            if exists|j: int|
                0 <= j < w0.len() && w0[j].1 == Status::Busy && #[trigger] self@[j].1
                    == Status::Released {
                let j = choose|j: int|
                    0 <= j < w0.len() && w0[j].1 == Status::Busy && #[trigger] self@[j].1
                        == Status::Released;
                assert(self@[j] == if w0[j].1 == Status::Busy && !ans[busy_ids(
                    w0.take(j),
                ).len() as int] {
                    (w0[j].0, Status::Released)
                } else {
                    w0[j]
                });
                assert(w0[j].1 == Status::Busy && !ans[busy_ids(w0.take(j)).len() as int]);
            }
            if !released {
                assert(self@ =~= w0);
            }
        }
        released
    }

    /// Hands a stop message to the channel of every worker that is not
    /// released yet, in order, and releases every worker.
    pub fn stop_workers(&mut self)
        requires
            old(self).wf(),
        ensures
            final(self).wf(),
            final(self).channels() == old(self).channels(),
            final(self)@ == all_released(old(self)@),
            final(self).sent() == old(self).sent() + addressed(
                active_ids(old(self)@),
                ControlToWorkerEvent::Stop,
            ),
            forall|k: int|
                0 <= k < active_ids(old(self)@).len() ==> (#[trigger] final(self).receipts()[old(self).sent().len() + k]).1.channel() == old(self).channel_of(active_ids(old(self)@)[k])
                    && final(self).receipts()[old(self).sent().len() + k].1.event()
                    == ControlToWorkerEvent::<T>::Stop,
    {
        let ghost w0 = self@;
        let ghost c0 = self.channels();
        let ghost s0 = self.sent();
        let ghost wanted = set![Status::Free, Status::Busy];
        proof {
            self.lemma_view_len();
            lemma_take_all(w0);
        }
        let mut i: usize = 0;
        while i < self.slots.len()
            invariant
                self.wf(),
                self.channels() == c0,
                self.slots@.len() == w0.len(),
                w0.take(w0.len() as int) == w0,
                wanted == set![Status::Free, Status::Busy],
                i <= w0.len(),
                self.sent() == s0 + addressed(
                    ids_with_status(w0.take(i as int), wanted),
                    ControlToWorkerEvent::Stop,
                ),
                forall|j: int| 0 <= j < i ==> #[trigger] self@[j] == (w0[j].0, Status::Released),
                forall|j: int| i <= j < w0.len() ==> #[trigger] self@[j] == w0[j],
            decreases w0.len() - i,
        {
            proof {
                self.lemma_view_len();
                lemma_ids_step(w0, wanted, i as int);
            }
            let ghost before = self@;
            assert(self@[i as int] == w0[i as int]);
            if self.slots[i].status != Status::Released {
                assert(wanted.contains(w0[i as int].1));
                let id = self.slots[i].id;
                let _delivered = self.send_to(i, ControlToWorkerEvent::Stop);
                proof {
                    assert(addressed(
                        ids_with_status(w0.take(i as int + 1), wanted),
                        ControlToWorkerEvent::<T>::Stop,
                    ) =~= addressed(
                        ids_with_status(w0.take(i as int), wanted),
                        ControlToWorkerEvent::<T>::Stop,
                    ).push((id, ControlToWorkerEvent::Stop)));
                }
            }
            self.slots[i].status = Status::Released;
            proof {
                self.lemma_view_len();
                assert(self.channels() =~= c0);
                assert forall|j: int| 0 <= j < w0.len() && j != i implies #[trigger] self@[j] == before[j] by {}
                assert(worker_ids(self@) =~= worker_ids(before));
            }
            i = i + 1;
        }
        proof {
            self.lemma_view_len();
            assert(self@ =~= all_released(w0));
            let msgs = addressed(active_ids(w0), ControlToWorkerEvent::<T>::Stop);
            self.lemma_receipts_of(s0, msgs);
            assert(worker_ids(self@) =~= worker_ids(w0));
        }
    }
}

} // verus!
