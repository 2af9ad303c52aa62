# taskqueue

Parallel execution of a queue of tasks, where a running task may add new tasks.

- `src/` is the verified library: the container of waiting tasks and its two
  disciplines (`QueueType::Stack`, `QueueType::Queue`), the controller's record
  of its workers (`WorkersHolder`), the controller's reaction to each event
  (`Controller`), a worker's decisions between tasks (`worker`), and the handle
  through which a task adds tasks (`TaskReceiver`).
- `app/` runs the threads: it spawns the controller and the workers, receives
  on the channels, holds the shared container behind a mutex, and joins the
  threads (`TaskQueue`, `Worker`, `RunTask`).
- `tests/` exercises the library on concrete values.
