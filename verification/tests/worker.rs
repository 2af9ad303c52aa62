use std::sync::mpsc::channel;
use taskqueue::{
    after_task, next_step, worker_step, AfterTask, ControlToWorkerEvent, TaskControlCommand,
    TaskReceiver, WorkerAction, WorkerInput, WorkerState, WorkerStep, WorkerToControlEvent,
};

#[test]
fn worker_leaves_on_stop_or_closed_channel() {
    assert!(matches!(next_step::<u32>(Some(ControlToWorkerEvent::Stop)), WorkerStep::Exit));
    assert!(matches!(next_step::<u32>(None), WorkerStep::Exit));
}

#[test]
fn worker_waits_after_keep_alive() {
    assert!(matches!(next_step::<u32>(Some(ControlToWorkerEvent::KeepAlive)), WorkerStep::Wait));
}

#[test]
fn worker_runs_the_task_it_is_given() {
    assert!(matches!(next_step(Some(ControlToWorkerEvent::RunTask(5u32))), WorkerStep::Execute(5)));
}

#[test]
fn aborting_task_is_reported_and_stops_draining() {
    assert_eq!(
        after_task(TaskControlCommand::Abort),
        AfterTask { report_abort: true, take_next: false }
    );
}

#[test]
fn continuing_task_lets_the_worker_drain_the_queue() {
    assert_eq!(
        after_task(TaskControlCommand::Continue),
        AfterTask { report_abort: false, take_next: true }
    );
}

/// Drives the worker machine with the given answers, starting from a wait,
/// and returns the actions it asked for, tasks shown by their number.
fn drive(inputs: Vec<WorkerInput<u32>>) -> (WorkerState, Vec<String>) {
    let mut state = WorkerState::Waiting;
    let mut actions = Vec::new();
    for input in inputs {
        let (next, action) = worker_step(3, state, input);
        state = next;
        actions.push(match action {
            WorkerAction::Receive => "receive".to_string(),
            WorkerAction::Run(task) => format!("run {}", task),
            WorkerAction::Pop => "pop".to_string(),
            WorkerAction::Send(WorkerToControlEvent::AbortTaskChain) => "abort".to_string(),
            WorkerAction::Send(WorkerToControlEvent::Complete(id)) => format!("complete {}", id),
            WorkerAction::Send(_) => "other".to_string(),
            WorkerAction::Exit => "exit".to_string(),
        });
    }
    (state, actions)
}

#[test]
fn worker_drains_the_queue_then_completes() {
    let (state, actions) = drive(vec![
        WorkerInput::Message(Some(ControlToWorkerEvent::KeepAlive)),
        WorkerInput::Message(Some(ControlToWorkerEvent::RunTask(1))),
        WorkerInput::Ran(TaskControlCommand::Continue),
        WorkerInput::Popped(Some(2)),
        WorkerInput::Ran(TaskControlCommand::Continue),
        WorkerInput::Popped(None),
        WorkerInput::Sent(true),
        WorkerInput::Message(Some(ControlToWorkerEvent::Stop)),
    ]);
    assert_eq!(
        actions,
        vec!["receive", "run 1", "pop", "run 2", "pop", "complete 3", "receive", "exit"]
    );
    assert_eq!(state, WorkerState::Stopped);
}

#[test]
fn worker_whose_given_task_aborts_takes_no_new_task() {
    let (state, actions) = drive(vec![
        WorkerInput::Message(Some(ControlToWorkerEvent::RunTask(1))),
        WorkerInput::Ran(TaskControlCommand::Abort),
        WorkerInput::Sent(true),
        WorkerInput::Sent(true),
    ]);
    assert_eq!(actions, vec!["run 1", "abort", "complete 3", "receive"]);
    assert_eq!(state, WorkerState::Waiting);
}

#[test]
fn worker_leaves_when_the_abort_report_is_not_taken() {
    let (state, actions) = drive(vec![
        WorkerInput::Message(Some(ControlToWorkerEvent::RunTask(1))),
        WorkerInput::Ran(TaskControlCommand::Abort),
        WorkerInput::Sent(false),
    ]);
    assert_eq!(actions, vec!["run 1", "abort", "exit"]);
    assert_eq!(state, WorkerState::Stopped);
}

#[test]
fn worker_completes_after_a_queued_task_aborts_even_if_the_report_is_lost() {
    let (state, actions) = drive(vec![
        WorkerInput::Message(Some(ControlToWorkerEvent::RunTask(1))),
        WorkerInput::Ran(TaskControlCommand::Continue),
        WorkerInput::Popped(Some(2)),
        WorkerInput::Ran(TaskControlCommand::Abort),
        WorkerInput::Sent(false),
        WorkerInput::Sent(false),
    ]);
    assert_eq!(actions, vec!["run 1", "pop", "run 2", "abort", "complete 3", "exit"]);
    assert_eq!(state, WorkerState::Stopped);
}

#[test]
fn worker_leaves_on_an_answer_that_does_not_fit() {
    let (state, actions) = drive(vec![WorkerInput::Popped(Some(1)), WorkerInput::Sent(true)]);
    assert_eq!(actions, vec!["exit", "exit"]);
    assert_eq!(state, WorkerState::Stopped);
}

#[test]
fn task_receiver_sends_added_tasks_to_the_controller() {
    let (sender, receiver) = channel();
    let task_receiver = TaskReceiver::new(sender);
    let _ = task_receiver.add_task(11u32);
    let _ = task_receiver.add_task(12u32);
    assert!(matches!(receiver.try_recv(), Ok(WorkerToControlEvent::AddTask(11))));
    assert!(matches!(receiver.try_recv(), Ok(WorkerToControlEvent::AddTask(12))));
    assert!(receiver.try_recv().is_err());
}

#[test]
fn task_receiver_drops_tasks_once_the_controller_is_gone() {
    let (sender, receiver) = channel::<WorkerToControlEvent<u32>>();
    drop(receiver);
    let task_receiver = TaskReceiver::new(sender);
    let _ = task_receiver.add_task(1);
}
