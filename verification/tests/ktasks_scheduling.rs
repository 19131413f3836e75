use std::collections::VecDeque;

use koi::ktasks::{
    other_queue_indices, worker_count,
    run_current_thread_tasks, run_only_local_tasks, run_tasks_unless_there_are_workers, shutdown_worker_threads,
    spawn, spawn_local, spawn_main, ForeverRound, Poll, Round, Step, Worker,
};

#[test]
fn join_handle_gives_its_result_once() {
    let worker = Worker::new();
    let mut handle = spawn::<u32>(&worker, 1);
    assert_eq!(handle.get_result(), None);
    handle.complete(5);
    assert_eq!(handle.get_result(), Some(5));
    assert_eq!(handle.get_result(), None);
    handle.complete(6);
    assert_eq!(handle.inner_poll(), Poll::Ready(6));
    assert_eq!(handle.inner_poll(), Poll::Pending);
}

#[test]
fn a_task_is_scheduled_once() {
    let mut worker = Worker::new();
    let mut shared = spawn::<()>(&worker, 1);
    let mut local = spawn_local::<()>(&worker, 2);
    let mut main = spawn_main::<()>(&worker, 3);
    shared.run(&mut worker);
    shared.run(&mut worker);
    local.run(&mut worker);
    main.run(&mut worker);
    let mut round = Round::new();
    assert_eq!(worker.run_current_thread_tasks(&mut round), Some(2));
    assert_eq!(worker.run_current_thread_tasks(&mut round), Some(1));
    assert_eq!(worker.run_current_thread_tasks(&mut round), None);
    assert_eq!(worker.run_current_thread_tasks(&mut round), None);
}

#[test]
fn rounds_alternate_local_and_own_tasks() {
    let mut worker = Worker::new();
    for t in [10, 11, 12] {
        worker.enqueue_task(t);
    }
    let mut a = spawn_local::<()>(&worker, 1);
    let mut b = spawn_local::<()>(&worker, 2);
    a.run(&mut worker);
    b.run(&mut worker);
    let mut round = Round::new();
    let mut order = Vec::new();
    while let Some(t) = run_current_thread_tasks(&mut worker, &mut round) {
        order.push(t);
    }
    assert_eq!(order, vec![1, 10, 2, 11, 12]);
}

#[test]
fn only_local_tasks_with_other_workers() {
    let mut worker = Worker::with_other_queues(1, vec![VecDeque::from(vec![7])]);
    worker.enqueue_task(10);
    let mut a = spawn_local::<()>(&worker, 1);
    a.run(&mut worker);
    let mut round = Round::new();
    assert_eq!(run_only_local_tasks(&mut worker, &mut round), Some(1));
    assert_eq!(run_only_local_tasks(&mut worker, &mut round), None);
    let mut round = Round::new();
    assert_eq!(run_tasks_unless_there_are_workers(&mut worker, &mut round), None);

    let mut alone = Worker::new();
    alone.enqueue_task(4);
    let mut round = Round::new();
    assert_eq!(run_tasks_unless_there_are_workers(&mut alone, &mut round), Some(4));
}

#[test]
fn run_forever_drains_then_steals_then_waits() {
    let others = vec![VecDeque::new(), VecDeque::from(vec![20, 21])];
    let mut worker = Worker::with_other_queues(1, others);
    worker.enqueue_task(10);
    worker.enqueue_task(11);
    let mut a = spawn_local::<()>(&worker, 1);
    a.run(&mut worker);
    let mut round = ForeverRound::new();
    let mut steps = Vec::new();
    loop {
        let step = worker.run_forever(&mut round);
        steps.push(step);
        if step == Step::Wait {
            break;
        }
    }
    assert_eq!(
        steps,
        vec![Step::Run(1), Step::Run(10), Step::Run(11), Step::Run(20), Step::Run(21), Step::Wait]
    );
    shutdown_worker_threads(&mut worker);
}

#[test]
fn worker_layout() {
    assert_eq!(worker_count(1), 1);
    assert_eq!(worker_count(2), 1);
    assert_eq!(worker_count(8), 7);
    assert_eq!(other_queue_indices(4, 0), vec![3, 1, 2]);
    assert_eq!(other_queue_indices(4, 3), vec![0, 1, 2]);
    assert_eq!(other_queue_indices(1, 0), Vec::<usize>::new());
}
