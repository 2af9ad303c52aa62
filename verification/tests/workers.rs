use std::sync::mpsc::{channel, Receiver, Sender};
use taskqueue::{
    add_to_queue, ControlToWorkerEvent, Error, QueueType, Status, TaskContainer, WorkerId,
    WorkersHolder,
};

type Channels = Vec<(WorkerId, Sender<ControlToWorkerEvent<u32>>)>;

fn workers(ids: &[WorkerId]) -> (Channels, Vec<Receiver<ControlToWorkerEvent<u32>>>) {
    let mut senders = Vec::new();
    let mut receivers = Vec::new();
    for id in ids {
        let (sender, receiver) = channel();
        senders.push((*id, sender));
        receivers.push(receiver);
    }
    (senders, receivers)
}

fn queue_of(tasks: &[u32]) -> TaskContainer<u32> {
    let mut queue = TaskContainer::new();
    for task in tasks {
        add_to_queue(*task, QueueType::Stack, &mut queue);
    }
    queue
}

fn received_task(receiver: &Receiver<ControlToWorkerEvent<u32>>) -> Option<u32> {
    match receiver.try_recv() {
        Ok(ControlToWorkerEvent::RunTask(task)) => Some(task),
        _ => None,
    }
}

#[test]
fn new_holder_has_every_worker_free() {
    let (senders, _receivers) = workers(&[4, 2, 9]);
    let holder = WorkersHolder::new(senders);
    assert_eq!(holder.len(), 3);
    assert_eq!(holder.status(4), Some(Status::Free));
    assert_eq!(holder.status(2), Some(Status::Free));
    assert_eq!(holder.status(9), Some(Status::Free));
    assert_eq!(holder.status(5), None);
    assert!(!holder.has_busy_workers());
}

#[test]
fn free_worker_of_unknown_id_fails() {
    let (senders, _receivers) = workers(&[0, 1]);
    let mut holder = WorkersHolder::new(senders);
    assert_eq!(holder.free_worker(7), Err(Error::WorkerNotFound { id: 7 }));
    assert_eq!(holder.status(0), Some(Status::Free));
}

#[test]
fn assign_tasks_gives_back_tasks_to_free_workers_in_order() {
    let (senders, _receivers) = workers(&[10, 11, 12]);
    let mut holder = WorkersHolder::new(senders);
    let mut queue = queue_of(&[1, 2]);
    let assigned = holder.assign_tasks(&mut queue);
    assert_eq!(assigned, vec![(10, 2), (11, 1)]);
    assert!(queue.is_empty());
    assert_eq!(holder.status(10), Some(Status::Busy));
    assert_eq!(holder.status(11), Some(Status::Busy));
    assert_eq!(holder.status(12), Some(Status::Free));
    assert!(holder.has_busy_workers());
}

#[test]
fn assign_tasks_leaves_tasks_when_workers_run_out() {
    let (senders, _receivers) = workers(&[0, 1]);
    let mut holder = WorkersHolder::new(senders);
    let mut queue = queue_of(&[1, 2, 3]);
    let assigned = holder.assign_tasks(&mut queue);
    assert_eq!(assigned, vec![(0, 3), (1, 2)]);
    assert_eq!(queue.len(), 1);
    assert_eq!(queue.pop_back(), Some(1));
    let mut more = queue_of(&[4]);
    assert_eq!(holder.assign_tasks(&mut more), vec![]);
    assert_eq!(more.len(), 1);
}

#[test]
fn assign_tasks_skips_busy_workers() {
    let (senders, _receivers) = workers(&[0, 1, 2]);
    let mut holder = WorkersHolder::new(senders);
    let mut first = queue_of(&[5]);
    assert_eq!(holder.assign_tasks(&mut first), vec![(0, 5)]);
    let mut second = queue_of(&[6, 7]);
    assert_eq!(holder.assign_tasks(&mut second), vec![(1, 7), (2, 6)]);
    assert_eq!(holder.free_worker(0), Ok(()));
    let mut third = queue_of(&[8]);
    assert_eq!(holder.assign_tasks(&mut third), vec![(0, 8)]);
}

#[test]
fn run_tasks_sends_each_task_to_its_worker() {
    let (senders, receivers) = workers(&[3, 4]);
    let mut holder = WorkersHolder::new(senders);
    let mut queue = queue_of(&[1, 2]);
    holder.run_tasks(&mut queue);
    assert!(queue.is_empty());
    assert_eq!(received_task(&receivers[0]), Some(2));
    assert_eq!(received_task(&receivers[1]), Some(1));
    assert_eq!(holder.status(3), Some(Status::Busy));
    assert_eq!(holder.status(4), Some(Status::Busy));
}

#[test]
fn busy_workers_lists_busy_ids_in_order() {
    let (senders, _receivers) = workers(&[5, 6, 7]);
    let mut holder = WorkersHolder::new(senders);
    let mut queue = queue_of(&[1, 2]);
    holder.run_tasks(&mut queue);
    assert_eq!(holder.busy_workers(), vec![5, 6]);
}

#[test]
fn release_unreachable_releases_only_busy_listed_workers() {
    let (senders, _receivers) = workers(&[0, 1, 2]);
    let mut holder = WorkersHolder::new(senders);
    let mut queue = queue_of(&[1, 2]);
    holder.run_tasks(&mut queue);
    assert!(!holder.release_unreachable(&vec![2]));
    assert_eq!(holder.status(2), Some(Status::Free));
    assert!(holder.release_unreachable(&vec![1, 2]));
    assert_eq!(holder.status(0), Some(Status::Busy));
    assert_eq!(holder.status(1), Some(Status::Released));
    assert_eq!(holder.status(2), Some(Status::Free));
}

#[test]
fn keep_alive_releases_a_busy_worker_that_stopped_listening() {
    let (senders, mut receivers) = workers(&[0, 1]);
    let mut holder = WorkersHolder::new(senders);
    let mut queue = queue_of(&[1, 2]);
    holder.run_tasks(&mut queue);
    drop(receivers.remove(1));
    assert!(holder.keep_alive());
    assert_eq!(holder.status(0), Some(Status::Busy));
    assert_eq!(holder.status(1), Some(Status::Released));
    let _ = receivers[0].try_recv();
    assert!(matches!(receivers[0].try_recv(), Ok(ControlToWorkerEvent::KeepAlive)));
}

#[test]
fn keep_alive_with_listening_workers_releases_none() {
    let (senders, receivers) = workers(&[0, 1]);
    let mut holder = WorkersHolder::new(senders);
    let mut queue = queue_of(&[1]);
    holder.run_tasks(&mut queue);
    assert!(!holder.keep_alive());
    assert_eq!(holder.status(0), Some(Status::Busy));
    assert_eq!(holder.status(1), Some(Status::Free));
    assert_eq!(received_task(&receivers[0]), Some(1));
    assert!(matches!(receivers[0].try_recv(), Ok(ControlToWorkerEvent::KeepAlive)));
    assert!(receivers[1].try_recv().is_err());
}

#[test]
fn stop_workers_stops_running_workers_and_releases_all() {
    let (senders, receivers) = workers(&[0, 1, 2]);
    let mut holder = WorkersHolder::new(senders);
    let mut queue = queue_of(&[1]);
    holder.run_tasks(&mut queue);
    assert!(holder.release_unreachable(&vec![0]));
    holder.stop_workers();
    for id in [0, 1, 2] {
        assert_eq!(holder.status(id), Some(Status::Released));
    }
    assert!(!holder.has_busy_workers());
    assert_eq!(received_task(&receivers[0]), Some(1));
    assert!(receivers[0].try_recv().is_err());
    assert!(matches!(receivers[1].try_recv(), Ok(ControlToWorkerEvent::Stop)));
    assert!(matches!(receivers[2].try_recv(), Ok(ControlToWorkerEvent::Stop)));
}

#[test]
fn second_stop_workers_sends_nothing() {
    let (senders, receivers) = workers(&[0, 1]);
    let mut holder = WorkersHolder::new(senders);
    holder.stop_workers();
    holder.stop_workers();
    for receiver in &receivers {
        assert!(matches!(receiver.try_recv(), Ok(ControlToWorkerEvent::Stop)));
        assert!(receiver.try_recv().is_err());
    }
    let mut more = queue_of(&[3]);
    assert_eq!(holder.assign_tasks(&mut more), vec![]);
}

#[test]
fn second_run_tasks_sends_nothing() {
    let (senders, receivers) = workers(&[0, 1]);
    let mut holder = WorkersHolder::new(senders);
    let mut queue = queue_of(&[1, 2, 3]);
    holder.run_tasks(&mut queue);
    holder.run_tasks(&mut queue);
    assert_eq!(queue.len(), 1);
    assert_eq!(received_task(&receivers[0]), Some(3));
    assert_eq!(received_task(&receivers[1]), Some(2));
    assert!(receivers[0].try_recv().is_err());
    assert!(receivers[1].try_recv().is_err());
}
