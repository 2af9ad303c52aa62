use std::sync::mpsc::{channel, Receiver, Sender};
use taskqueue::{
    add_to_queue, ControlToWorkerEvent, Controller, ControllerFlow, Error, QueueType, Status,
    TaskContainer, WorkerId, WorkerToControlEvent,
};

fn controller(
    ids: &[WorkerId],
    queue_type: QueueType,
) -> (Controller<u32>, Vec<Receiver<ControlToWorkerEvent<u32>>>) {
    let mut senders: Vec<(WorkerId, Sender<ControlToWorkerEvent<u32>>)> = Vec::new();
    let mut receivers = Vec::new();
    for id in ids {
        let (sender, receiver) = channel();
        senders.push((*id, sender));
        receivers.push(receiver);
    }
    (Controller::new(senders, queue_type), receivers)
}

#[test]
fn new_controller_is_idle() {
    let (c, _receivers) = controller(&[0, 1], QueueType::Queue);
    assert_eq!(c.queue_type(), QueueType::Queue);
    assert!(!c.stop_requested());
    assert!(!c.has_busy_workers());
    assert_eq!(c.worker_status(1), Some(Status::Free));
    assert_eq!(c.worker_status(2), None);
}

#[test]
fn no_event_changes_nothing() {
    let (mut c, _receivers) = controller(&[0], QueueType::Stack);
    let mut queue = TaskContainer::new();
    add_to_queue(1, QueueType::Stack, &mut queue);
    assert_eq!(c.on_event(None, &mut queue), Ok(ControllerFlow::Continue));
    assert_eq!(queue.len(), 1);
    assert!(!c.stop_requested());
}

#[test]
fn add_task_follows_the_queue_type() {
    let (mut stack, _r1) = controller(&[0], QueueType::Stack);
    let (mut fifo, _r2) = controller(&[0], QueueType::Queue);
    let mut stack_queue = TaskContainer::new();
    let mut fifo_queue = TaskContainer::new();
    for task in [1, 2] {
        let event = WorkerToControlEvent::AddTask(task);
        assert_eq!(stack.on_event(Some(event), &mut stack_queue), Ok(ControllerFlow::Continue));
        let event = WorkerToControlEvent::AddTask(task);
        assert_eq!(fifo.on_event(Some(event), &mut fifo_queue), Ok(ControllerFlow::Continue));
    }
    assert_eq!(stack_queue.pop_back(), Some(2));
    assert_eq!(fifo_queue.pop_back(), Some(1));
}

#[test]
fn complete_frees_the_worker() {
    let (mut c, _receivers) = controller(&[0, 1], QueueType::Stack);
    let mut queue = TaskContainer::new();
    add_to_queue(9, QueueType::Stack, &mut queue);
    assert_eq!(c.dispatch(&mut queue), ControllerFlow::Continue);
    assert_eq!(c.worker_status(0), Some(Status::Busy));
    let event = WorkerToControlEvent::Complete(0);
    assert_eq!(c.on_event(Some(event), &mut queue), Ok(ControllerFlow::Continue));
    assert_eq!(c.worker_status(0), Some(Status::Free));
    assert!(!c.has_busy_workers());
}

#[test]
fn complete_of_unknown_worker_fails() {
    let (mut c, _receivers) = controller(&[0], QueueType::Stack);
    let mut queue: TaskContainer<u32> = TaskContainer::new();
    let event = WorkerToControlEvent::Complete(5);
    assert_eq!(c.on_event(Some(event), &mut queue), Err(Error::WorkerNotFound { id: 5 }));
    assert_eq!(c.worker_status(0), Some(Status::Free));
}

#[test]
fn abort_drops_waiting_tasks_and_finishes() {
    let (mut c, _receivers) = controller(&[0], QueueType::Stack);
    let mut queue = TaskContainer::new();
    add_to_queue(1, QueueType::Stack, &mut queue);
    add_to_queue(2, QueueType::Stack, &mut queue);
    let event = WorkerToControlEvent::AbortTaskChain;
    assert_eq!(c.on_event(Some(event), &mut queue), Ok(ControllerFlow::Finish));
    assert!(queue.is_empty());
}

#[test]
fn stop_request_is_kept() {
    let (mut c, _receivers) = controller(&[0], QueueType::Stack);
    let mut queue: TaskContainer<u32> = TaskContainer::new();
    let event = WorkerToControlEvent::Stop;
    assert_eq!(c.on_event(Some(event), &mut queue), Ok(ControllerFlow::Continue));
    assert!(c.stop_requested());
    assert_eq!(c.on_event(None, &mut queue), Ok(ControllerFlow::Continue));
    let event = WorkerToControlEvent::AddTask(3);
    assert_eq!(c.on_event(Some(event), &mut queue), Ok(ControllerFlow::Continue));
    assert!(c.stop_requested());
}

#[test]
fn dispatch_finishes_only_when_stopped_idle_and_empty() {
    let (mut c, receivers) = controller(&[0], QueueType::Stack);
    let mut queue = TaskContainer::new();
    assert_eq!(c.dispatch(&mut queue), ControllerFlow::Continue);
    let event = WorkerToControlEvent::Stop;
    assert_eq!(c.on_event(Some(event), &mut queue), Ok(ControllerFlow::Continue));
    add_to_queue(4, QueueType::Stack, &mut queue);
    assert_eq!(c.dispatch(&mut queue), ControllerFlow::Continue);
    assert!(queue.is_empty());
    assert!(matches!(receivers[0].try_recv(), Ok(ControlToWorkerEvent::RunTask(4))));
    assert_eq!(c.dispatch(&mut queue), ControllerFlow::Continue);
    let event = WorkerToControlEvent::Complete(0);
    assert_eq!(c.on_event(Some(event), &mut queue), Ok(ControllerFlow::Continue));
    assert_eq!(c.dispatch(&mut queue), ControllerFlow::Finish);
}

#[test]
fn dispatch_waits_for_a_free_worker() {
    let (mut c, _receivers) = controller(&[0], QueueType::Queue);
    let mut queue = TaskContainer::new();
    add_to_queue(1, QueueType::Queue, &mut queue);
    add_to_queue(2, QueueType::Queue, &mut queue);
    assert_eq!(c.dispatch(&mut queue), ControllerFlow::Continue);
    assert_eq!(queue.len(), 1);
    assert_eq!(c.dispatch(&mut queue), ControllerFlow::Continue);
    assert_eq!(queue.len(), 1);
    assert_eq!(queue.pop_back(), Some(2));
}

#[test]
fn keep_alive_finishes_when_a_busy_worker_is_gone() {
    let (mut c, mut receivers) = controller(&[0, 1], QueueType::Stack);
    let mut queue = TaskContainer::new();
    add_to_queue(1, QueueType::Stack, &mut queue);
    assert_eq!(c.dispatch(&mut queue), ControllerFlow::Continue);
    assert_eq!(c.keep_alive(), ControllerFlow::Continue);
    drop(receivers.remove(0));
    assert_eq!(c.keep_alive(), ControllerFlow::Finish);
    assert_eq!(c.worker_status(0), Some(Status::Released));
    assert_eq!(c.worker_status(1), Some(Status::Free));
}

#[test]
fn keep_alive_ignores_free_workers_that_are_gone() {
    let (mut c, receivers) = controller(&[0], QueueType::Stack);
    drop(receivers);
    assert_eq!(c.keep_alive(), ControllerFlow::Continue);
    assert_eq!(c.worker_status(0), Some(Status::Free));
}

#[test]
fn shutdown_stops_and_releases_every_worker() {
    let (mut c, receivers) = controller(&[0, 1], QueueType::Stack);
    let mut queue = TaskContainer::new();
    add_to_queue(1, QueueType::Stack, &mut queue);
    assert_eq!(c.dispatch(&mut queue), ControllerFlow::Continue);
    c.shutdown();
    assert_eq!(c.worker_status(0), Some(Status::Released));
    assert_eq!(c.worker_status(1), Some(Status::Released));
    assert!(matches!(receivers[0].try_recv(), Ok(ControlToWorkerEvent::RunTask(1))));
    assert!(matches!(receivers[0].try_recv(), Ok(ControlToWorkerEvent::Stop)));
    assert!(matches!(receivers[1].try_recv(), Ok(ControlToWorkerEvent::Stop)));
    add_to_queue(2, QueueType::Stack, &mut queue);
    assert_eq!(c.dispatch(&mut queue), ControllerFlow::Continue);
    assert_eq!(queue.len(), 1);
}

#[test]
fn step_adds_pings_and_dispatches() {
    let (mut c, receivers) = controller(&[0, 1], QueueType::Queue);
    let mut queue = TaskContainer::new();
    add_to_queue(1, QueueType::Queue, &mut queue);
    assert_eq!(c.step(None, &mut queue), Ok(ControllerFlow::Continue));
    assert!(matches!(receivers[0].try_recv(), Ok(ControlToWorkerEvent::RunTask(1))));
    let event = WorkerToControlEvent::AddTask(2);
    assert_eq!(c.step(Some(event), &mut queue), Ok(ControllerFlow::Continue));
    assert!(matches!(receivers[0].try_recv(), Ok(ControlToWorkerEvent::KeepAlive)));
    assert!(matches!(receivers[1].try_recv(), Ok(ControlToWorkerEvent::RunTask(2))));
    assert!(queue.is_empty());
    assert!(receivers[0].try_recv().is_err());
}

#[test]
fn step_finishes_on_abort_without_messages() {
    let (mut c, receivers) = controller(&[0], QueueType::Stack);
    let mut queue = TaskContainer::new();
    add_to_queue(1, QueueType::Stack, &mut queue);
    let event = WorkerToControlEvent::AbortTaskChain;
    assert_eq!(c.step(Some(event), &mut queue), Ok(ControllerFlow::Finish));
    assert!(queue.is_empty());
    assert!(receivers[0].try_recv().is_err());
}

#[test]
fn step_fails_on_unknown_worker() {
    let (mut c, _receivers) = controller(&[0], QueueType::Stack);
    let mut queue: TaskContainer<u32> = TaskContainer::new();
    let event = WorkerToControlEvent::Complete(9);
    assert_eq!(c.step(Some(event), &mut queue), Err(Error::WorkerNotFound { id: 9 }));
}

#[test]
fn step_finishes_when_stopped_and_all_done() {
    let (mut c, _receivers) = controller(&[0], QueueType::Stack);
    let mut queue = TaskContainer::new();
    add_to_queue(1, QueueType::Stack, &mut queue);
    assert_eq!(c.step(Some(WorkerToControlEvent::Stop), &mut queue), Ok(ControllerFlow::Continue));
    assert_eq!(c.step(None, &mut queue), Ok(ControllerFlow::Continue));
    let event = WorkerToControlEvent::Complete(0);
    assert_eq!(c.step(Some(event), &mut queue), Ok(ControllerFlow::Finish));
}

#[test]
fn step_finishes_when_a_busy_worker_is_gone() {
    let (mut c, mut receivers) = controller(&[0, 1], QueueType::Stack);
    let mut queue = TaskContainer::new();
    add_to_queue(1, QueueType::Stack, &mut queue);
    assert_eq!(c.step(None, &mut queue), Ok(ControllerFlow::Continue));
    drop(receivers.remove(0));
    add_to_queue(2, QueueType::Stack, &mut queue);
    assert_eq!(c.step(None, &mut queue), Ok(ControllerFlow::Finish));
    assert_eq!(c.worker_status(0), Some(Status::Released));
    assert_eq!(queue.len(), 1);
}
