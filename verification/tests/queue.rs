use taskqueue::{add_to_queue, QueueType, TaskContainer};

fn drain(queue: &mut TaskContainer<u32>) -> Vec<u32> {
    let mut taken = Vec::new();
    while let Some(task) = queue.pop_back() {
        taken.push(task);
    }
    taken
}

#[test]
fn stack_takes_the_newest_task_first() {
    let mut queue = TaskContainer::new();
    for task in [1, 2, 3] {
        add_to_queue(task, QueueType::Stack, &mut queue);
    }
    assert_eq!(drain(&mut queue), vec![3, 2, 1]);
}

#[test]
fn queue_takes_the_oldest_task_first() {
    let mut queue = TaskContainer::new();
    for task in [1, 2, 3] {
        add_to_queue(task, QueueType::Queue, &mut queue);
    }
    assert_eq!(drain(&mut queue), vec![1, 2, 3]);
}

#[test]
fn stack_pop_after_push_restores_the_container() {
    let mut queue = TaskContainer::new();
    add_to_queue(7, QueueType::Stack, &mut queue);
    add_to_queue(8, QueueType::Stack, &mut queue);
    assert_eq!(queue.pop_back(), Some(8));
    assert_eq!(queue.len(), 1);
    assert_eq!(queue.pop_back(), Some(7));
}

#[test]
fn queue_addition_keeps_the_next_task() {
    let mut queue = TaskContainer::new();
    add_to_queue(7, QueueType::Queue, &mut queue);
    add_to_queue(8, QueueType::Queue, &mut queue);
    add_to_queue(9, QueueType::Queue, &mut queue);
    assert_eq!(queue.pop_back(), Some(7));
    add_to_queue(10, QueueType::Queue, &mut queue);
    assert_eq!(drain(&mut queue), vec![8, 9, 10]);
}

#[test]
fn empty_container_gives_nothing() {
    let mut queue: TaskContainer<u32> = TaskContainer::new();
    assert!(queue.is_empty());
    assert_eq!(queue.len(), 0);
    assert_eq!(queue.pop_back(), None);
    assert!(queue.is_empty());
}

#[test]
fn clear_drops_every_task() {
    let mut queue = TaskContainer::new();
    add_to_queue(1, QueueType::Stack, &mut queue);
    add_to_queue(2, QueueType::Queue, &mut queue);
    assert_eq!(queue.len(), 2);
    assert!(!queue.is_empty());
    queue.clear();
    assert!(queue.is_empty());
    assert_eq!(queue.pop_back(), None);
}

#[test]
fn mixed_disciplines_put_tasks_at_both_ends() {
    let mut queue = TaskContainer::new();
    add_to_queue(1, QueueType::Stack, &mut queue);
    add_to_queue(2, QueueType::Queue, &mut queue);
    add_to_queue(3, QueueType::Stack, &mut queue);
    assert_eq!(drain(&mut queue), vec![3, 1, 2]);
}
