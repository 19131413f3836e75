//! Scheduling decisions of a task worker. A worker holds queues of tasks,
//! named by ids; running a task (polling its future) is done by the caller,
//! which asks the worker which task comes next.

use std::collections::VecDeque;
use vstd::prelude::*;

verus! {

/// The id of a task.
pub type TaskId = u64;

/// The queue that a task which must stay on one thread goes to.
#[derive(Clone, Copy, Debug, PartialEq, Eq, Structural)]
pub enum LocalQueue {
    /// The queue of the thread that spawned it.
    ThisThread,
    /// The queue of the main thread.
    MainThread,
}

/// The task behind a join handle, before it is scheduled.
#[derive(Clone, Copy, Debug, PartialEq, Eq, Structural)]
pub enum JoinHandleInnerTask {
    Local(TaskId, LocalQueue),
    NonLocal(TaskId),
}

/// Whether a result is there.
#[derive(Debug, PartialEq, Eq)]
pub enum Poll<T> {
    Ready(T),
    Pending,
}

/// A handle to a spawned task and its result.
pub struct JoinHandle<T> {
    result: Option<T>,
    task: Option<JoinHandleInnerTask>,
}

impl<T> JoinHandle<T> {
    /// The task, until it is scheduled.
    pub closed spec fn task(&self) -> Option<JoinHandleInnerTask> {
        self.task
    }

    /// The result, from when the task finished until it is taken.
    pub closed spec fn result(&self) -> Option<T> {
        self.result
    }

    /// The task finished with `value`.
    pub fn complete(&mut self, value: T)
        ensures
            final(self).result() == Some(value),
            final(self).task() == old(self).task(),
    {
        self.result = Some(value);
    }

    /// Takes the result where it is there.
    pub fn inner_poll(&mut self) -> (r: Poll<T>)
        ensures
            r == (match old(self).result() {
                Some(v) => Poll::Ready(v),
                None => Poll::Pending,
            }),
            final(self).result() is None,
            final(self).task() == old(self).task(),
    {
        match self.result.take() {
            Some(v) => Poll::Ready(v),
            None => Poll::Pending,
        }
    }

    /// The result, where it is there and was not taken already.
    pub fn get_result(&mut self) -> (r: Option<T>)
        ensures
            r == old(self).result(),
            final(self).result() is None,
            final(self).task() == old(self).task(),
    {
        match self.inner_poll() {
            Poll::Ready(t) => Some(t),
            Poll::Pending => None,
        }
    }

    /// Schedules the task, once: a local task goes to its thread's local
    /// queue, another to the worker's own queue.
    pub fn run(&mut self, worker: &mut Worker)
        ensures
            final(self).task() is None,
            final(self).result() == old(self).result(),
            ({
                let (l, m, o, x, n, s) = old(worker).model();
                final(worker).model() == match old(self).task() {
                    None => (l, m, o, x, n, s),
                    Some(JoinHandleInnerTask::Local(t, LocalQueue::ThisThread)) => (l.push(t), m, o, x, n, s),
                    Some(JoinHandleInnerTask::Local(t, LocalQueue::MainThread)) => (l, m.push(t), o, x, n, s),
                    Some(JoinHandleInnerTask::NonLocal(t)) => (l, m, o.push(t), x, true, s),
                }
            }),
            final(worker).spec_id() == old(worker).spec_id(),
    {
        match self.task.take() {
            Some(JoinHandleInnerTask::Local(t, LocalQueue::ThisThread)) => {
                worker.local_task_queue.push_back(t);
            },
            Some(JoinHandleInnerTask::Local(t, LocalQueue::MainThread)) => {
                worker.main_thread_local_task_queue.push_back(t);
            },
            Some(JoinHandleInnerTask::NonLocal(t)) => {
                worker.enqueue_task(t);
            },
            None => {},
        }
    }
}

/// A worker's queues, in the order its tasks are taken.
pub struct Worker {
    id: usize,
    new_task: bool,
    shutdown: bool,
    task_queue: VecDeque<TaskId>,
    local_task_queue: VecDeque<TaskId>,
    main_thread_local_task_queue: VecDeque<TaskId>,
    other_task_queues: Vec<VecDeque<TaskId>>,
}

/// The queues of other workers, as sequences.
pub open spec fn queue_views(queues: Seq<VecDeque<TaskId>>) -> Seq<Seq<TaskId>> {
    Seq::new(queues.len(), |i: int| queues[i]@)
}

impl Worker {
    /// The number of the worker's thread.
    pub closed spec fn spec_id(&self) -> usize {
        self.id
    }

    /// The local queue, the main thread's local queue, the worker's own
    /// queue, the other workers' queues, whether a new task was announced,
    /// and whether the workers were told to shut down.
    pub closed spec fn model(&self) -> (Seq<TaskId>, Seq<TaskId>, Seq<TaskId>, Seq<Seq<TaskId>>, bool, bool) {
        (
            self.local_task_queue@,
            self.main_thread_local_task_queue@,
            self.task_queue@,
            queue_views(self.other_task_queues@),
            self.new_task,
            self.shutdown,
        )
    }

    /// A worker with empty queues and no other workers.
    pub fn new() -> (w: Self)
        ensures
            w.spec_id() == 0,
            w.model() == (
                Seq::<TaskId>::empty(),
                Seq::<TaskId>::empty(),
                Seq::<TaskId>::empty(),
                Seq::<Seq<TaskId>>::empty(),
                false,
                false,
            ),
    {
        let w = Worker {
            id: 0,
            new_task: false,
            shutdown: false,
            task_queue: VecDeque::new(),
            local_task_queue: VecDeque::new(),
            main_thread_local_task_queue: VecDeque::new(),
            other_task_queues: Vec::new(),
        };
        assert(queue_views(w.other_task_queues@) =~= Seq::<Seq<TaskId>>::empty());
        w
    }

    /// A worker for thread `id`, given the other workers' queues.
    pub fn with_other_queues(id: usize, other_task_queues: Vec<VecDeque<TaskId>>) -> (w: Self)
        ensures
            w.spec_id() == id,
            w.model() == (
                Seq::<TaskId>::empty(),
                Seq::<TaskId>::empty(),
                Seq::<TaskId>::empty(),
                queue_views(other_task_queues@),
                false,
                false,
            ),
    {
        Worker {
            id,
            new_task: false,
            shutdown: false,
            task_queue: VecDeque::new(),
            local_task_queue: VecDeque::new(),
            main_thread_local_task_queue: VecDeque::new(),
            other_task_queues,
        }
    }

    /// Puts a task at the back of the worker's own queue and announces it.
    pub fn enqueue_task(&mut self, task: TaskId)
        ensures
            final(self).spec_id() == old(self).spec_id(),
            ({
                let (l, m, o, x, n, s) = old(self).model();
                final(self).model() == (l, m, o.push(task), x, true, s)
            }),
    {
        self.task_queue.push_back(task);
        self.new_task = true;
    }

    /// Tells the workers to shut down.
    pub fn shutdown_all(&mut self)
        ensures
            final(self).spec_id() == old(self).spec_id(),
            ({
                let (l, m, o, x, n, s) = old(self).model();
                final(self).model() == (l, m, o, x, n, true)
            }),
    {
        self.shutdown = true;
    }

    /// A handle to a task that may run on any thread.
    pub fn spawn<T>(&self, task: TaskId) -> (h: JoinHandle<T>)
        ensures
            h.task() == Some(JoinHandleInnerTask::NonLocal(task)),
            h.result() is None,
    {
        JoinHandle { result: None, task: Some(JoinHandleInnerTask::NonLocal(task)) }
    }

    /// A handle to a task that runs on the main thread.
    pub fn spawn_main<T>(&self, task: TaskId) -> (h: JoinHandle<T>)
        ensures
            h.task() == Some(JoinHandleInnerTask::Local(task, LocalQueue::MainThread)),
            h.result() is None,
    {
        JoinHandle { result: None, task: Some(JoinHandleInnerTask::Local(task, LocalQueue::MainThread)) }
    }

    /// A handle to a task that runs on this thread.
    pub fn spawn_local<T>(&self, task: TaskId) -> (h: JoinHandle<T>)
        ensures
            h.task() == Some(JoinHandleInnerTask::Local(task, LocalQueue::ThisThread)),
            h.result() is None,
    {
        JoinHandle { result: None, task: Some(JoinHandleInnerTask::Local(task, LocalQueue::ThisThread)) }
    }
}

/// Where a round of running the current thread's tasks stands.
#[derive(Clone, Copy, Debug, PartialEq, Eq, Structural)]
pub enum Stage {
    /// Next, one task of the local queue.
    LocalQueue,
    /// Next, one task of the worker's own queue.
    OwnQueue,
    /// The round is over; another follows where a task ran in it.
    EndOfRound,
    /// No task ran in the last round.
    Finished,
}

/// The state of a loop that runs the current thread's tasks in rounds.
#[derive(Clone, Copy, Debug, PartialEq, Eq, Structural)]
pub struct Round {
    pub stage: Stage,
    pub ran_a_task: bool,
}

impl Round {
    /// The state before the first round.
    pub fn new() -> (r: Self)
        ensures
            r == (Round { stage: Stage::LocalQueue, ran_a_task: false }),
    {
        Round { stage: Stage::LocalQueue, ran_a_task: false }
    }
}

pub open spec fn stage_rank(stage: Stage) -> int {
    match stage {
        Stage::LocalQueue => 3,
        Stage::OwnQueue => 2,
        Stage::EndOfRound => 1,
        Stage::Finished => 0,
    }
}

/// The next task of a loop that, round after round, runs one task of the
/// local queue and then, where `use_own`, one of the worker's own queue,
/// until a round runs none: the task (if any), the local queue and own
/// queue after it is taken, and the loop's new state.
pub open spec fn round_step(local: Seq<TaskId>, own: Seq<TaskId>, round: Round, use_own: bool) -> (
    Option<TaskId>,
    Seq<TaskId>,
    Seq<TaskId>,
    Round,
)
    decreases (if round.ran_a_task { 4int } else { 0int }) + stage_rank(round.stage),
{
    match round.stage {
        Stage::LocalQueue => if local.len() > 0 {
            (
                Some(local[0]),
                local.drop_first(),
                own,
                Round { stage: Stage::OwnQueue, ran_a_task: true },
            )
        } else {
            round_step(local, own, Round { stage: Stage::OwnQueue, ..round }, use_own)
        },
        Stage::OwnQueue => if use_own && own.len() > 0 {
            (
                Some(own[0]),
                local,
                own.drop_first(),
                Round { stage: Stage::EndOfRound, ran_a_task: true },
            )
        } else {
            round_step(local, own, Round { stage: Stage::EndOfRound, ..round }, use_own)
        },
        Stage::EndOfRound => if round.ran_a_task {
            round_step(local, own, Round { stage: Stage::LocalQueue, ran_a_task: false }, use_own)
        } else {
            (None, local, own, Round { stage: Stage::Finished, ran_a_task: false })
        },
        Stage::Finished => (None, local, own, round),
    }
}

impl Worker {
    fn round_next(&mut self, round: &mut Round, use_own: bool) -> (r: Option<TaskId>)
        ensures
            final(self).spec_id() == old(self).spec_id(),
            ({
                let (l, m, o, x, n, s) = old(self).model();
                let (t, l2, o2, r2) = round_step(l, o, *old(round), use_own);
                &&& r == t
                &&& *final(round) == r2
                &&& final(self).model() == (l2, m, o2, x, n, s)
            }),
    {
        loop
            invariant
                self.spec_id() == old(self).spec_id(),
                ({
                    let (l, m, o, x, n, s) = old(self).model();
                    let (l1, m1, o1, x1, n1, s1) = self.model();
                    &&& m1 == m && x1 == x && n1 == n && s1 == s
                    &&& round_step(l1, o1, *round, use_own) == round_step(l, o, *old(round), use_own)
                }),
            decreases (if round.ran_a_task { 4int } else { 0int }) + stage_rank(round.stage),
        {
            match round.stage {
                Stage::LocalQueue => {
                    match self.local_task_queue.pop_front() {
                        Some(t) => {
                            round.stage = Stage::OwnQueue;
                            round.ran_a_task = true;
                            return Some(t);
                        },
                        None => {
                            round.stage = Stage::OwnQueue;
                        },
                    }
                },
                Stage::OwnQueue => {
                    let popped = if use_own {
                        self.task_queue.pop_front()
                    } else {
                        None
                    };
                    match popped {
                        Some(t) => {
                            round.stage = Stage::EndOfRound;
                            round.ran_a_task = true;
                            return Some(t);
                        },
                        None => {
                            round.stage = Stage::EndOfRound;
                        },
                    }
                },
                Stage::EndOfRound => {
                    if round.ran_a_task {
                        round.stage = Stage::LocalQueue;
                        round.ran_a_task = false;
                    } else {
                        round.stage = Stage::Finished;
                        return None;
                    }
                },
                Stage::Finished => {
                    return None;
                },
            }
        }
    }

    /// The next task of the loop that runs this thread's tasks: round after
    /// round, one task of the local queue and then one of the worker's own
    /// queue, until a round runs none.
    pub fn run_current_thread_tasks(&mut self, round: &mut Round) -> (r: Option<TaskId>)
        ensures
            final(self).spec_id() == old(self).spec_id(),
            ({
                let (l, m, o, x, n, s) = old(self).model();
                let (t, l2, o2, r2) = round_step(l, o, *old(round), true);
                &&& r == t
                &&& *final(round) == r2
                &&& final(self).model() == (l2, m, o2, x, n, s)
            }),
    {
        self.round_next(round, true)
    }

    /// The next task of the loop that runs only the tasks that must run on
    /// this thread: as `run_current_thread_tasks`, but the worker's own queue
    /// is only used where there are no other workers.
    pub fn run_only_local_tasks(&mut self, round: &mut Round) -> (r: Option<TaskId>)
        ensures
            final(self).spec_id() == old(self).spec_id(),
            ({
                let (l, m, o, x, n, s) = old(self).model();
                let (t, l2, o2, r2) = round_step(l, o, *old(round), x.len() == 0);
                &&& r == t
                &&& *final(round) == r2
                &&& final(self).model() == (l2, m, o2, x, n, s)
            }),
    {
        let use_own = self.other_task_queues.len() == 0;
        proof {
            assert(queue_views(self.other_task_queues@).len() == self.other_task_queues@.len());
        }
        self.round_next(round, use_own)
    }
}

/// Where a round of a worker's endless loop stands.
#[derive(Clone, Copy, Debug, PartialEq, Eq, Structural)]
pub enum ForeverStage {
    /// Running the local queue until it is empty.
    LocalQueue,
    /// Running the worker's own queue until it is empty.
    OwnQueue,
    /// Taking one task from the first other worker that has one.
    OtherQueues,
    /// The round is over.
    EndOfRound,
}

/// The state of a worker's endless loop.
#[derive(Clone, Copy, Debug, PartialEq, Eq, Structural)]
pub struct ForeverRound {
    pub stage: ForeverStage,
    pub ran_a_task: bool,
}

/// What a worker does next in its endless loop.
#[derive(Clone, Copy, Debug, PartialEq, Eq, Structural)]
pub enum Step {
    /// The task to run next.
    Run(TaskId),
    /// Block until a task is announced; stop where the workers shut down.
    Wait,
}

impl ForeverRound {
    /// The state before the first round.
    pub fn new() -> (r: Self)
        ensures
            r == (ForeverRound { stage: ForeverStage::LocalQueue, ran_a_task: false }),
    {
        ForeverRound { stage: ForeverStage::LocalQueue, ran_a_task: false }
    }
}

pub open spec fn forever_rank(stage: ForeverStage) -> int {
    match stage {
        ForeverStage::LocalQueue => 3,
        ForeverStage::OwnQueue => 2,
        ForeverStage::OtherQueues => 1,
        ForeverStage::EndOfRound => 0,
    }
}

/// The index of the first queue that holds a task, or the number of queues.
pub open spec fn first_nonempty(queues: Seq<Seq<TaskId>>, from: int) -> int
    decreases queues.len() - from,
{
    if from < 0 || from >= queues.len() {
        queues.len() as int
    } else if queues[from].len() > 0 {
        from
    } else {
        first_nonempty(queues, from + 1)
    }
}

/// The next step of a worker's endless loop: each round runs the local
/// queue until it is empty, then the worker's own queue until it is empty,
/// then one task of the first other worker that has one; after a round
/// that ran nothing the worker waits. Gives the step, the queues after it
/// and the loop's new state.
pub open spec fn forever_step(
    local: Seq<TaskId>,
    own: Seq<TaskId>,
    others: Seq<Seq<TaskId>>,
    round: ForeverRound,
) -> (Step, Seq<TaskId>, Seq<TaskId>, Seq<Seq<TaskId>>, ForeverRound)
    decreases (if round.ran_a_task { 4int } else { 0int }) + forever_rank(round.stage),
{
    match round.stage {
        ForeverStage::LocalQueue => if local.len() > 0 {
            (Step::Run(local[0]), local.drop_first(), own, others, ForeverRound { ran_a_task: true, ..round })
        } else {
            forever_step(local, own, others, ForeverRound { stage: ForeverStage::OwnQueue, ..round })
        },
        ForeverStage::OwnQueue => if own.len() > 0 {
            (Step::Run(own[0]), local, own.drop_first(), others, ForeverRound { ran_a_task: true, ..round })
        } else {
            forever_step(local, own, others, ForeverRound { stage: ForeverStage::OtherQueues, ..round })
        },
        ForeverStage::OtherQueues => {
            let k = first_nonempty(others, 0);
            if k < others.len() {
                (
                    Step::Run(others[k][0]),
                    local,
                    own,
                    others.update(k, others[k].drop_first()),
                    ForeverRound { stage: ForeverStage::EndOfRound, ran_a_task: true },
                )
            } else {
                forever_step(local, own, others, ForeverRound { stage: ForeverStage::EndOfRound, ..round })
            }
        },
        ForeverStage::EndOfRound => if round.ran_a_task {
            forever_step(
                local,
                own,
                others,
                ForeverRound { stage: ForeverStage::LocalQueue, ran_a_task: false },
            )
        } else {
            (Step::Wait, local, own, others, ForeverRound { stage: ForeverStage::LocalQueue, ran_a_task: false })
        },
    }
}

impl Worker {
    /// Takes the first task of the first other worker that has one.
    fn steal(&mut self) -> (r: Option<TaskId>)
        ensures
            final(self).spec_id() == old(self).spec_id(),
            ({
                let (l, m, o, x, n, s) = old(self).model();
                let k = first_nonempty(x, 0);
                &&& k < x.len() ==> r == Some(x[k][0]) && final(self).model() == (
                    l,
                    m,
                    o,
                    x.update(k, x[k].drop_first()),
                    n,
                    s,
                )
                &&& k >= x.len() ==> r is None && final(self).model() == old(self).model()
            }),
    {
        let mut k: usize = 0;
        while k < self.other_task_queues.len()
            invariant
                *self == *old(self),
                k <= self.other_task_queues@.len(),
                first_nonempty(queue_views(self.other_task_queues@), k as int) == first_nonempty(
                    queue_views(self.other_task_queues@),
                    0,
                ),
            decreases self.other_task_queues@.len() - k,
        {
            if self.other_task_queues[k].len() > 0 {
                let ghost x = queue_views(self.other_task_queues@);
                let t = self.other_task_queues[k].pop_front();
                proof {
                    assert(queue_views(self.other_task_queues@) =~= x.update(
                        k as int,
                        x[k as int].drop_first(),
                    ));
                }
                return t;
            }
            k += 1;
        }
        None
    }

    /// The next step of this worker's endless loop.
    pub fn run_forever(&mut self, round: &mut ForeverRound) -> (r: Step)
        ensures
            final(self).spec_id() == old(self).spec_id(),
            ({
                let (l, m, o, x, n, s) = old(self).model();
                let (step, l2, o2, x2, r2) = forever_step(l, o, x, *old(round));
                &&& r == step
                &&& *final(round) == r2
                &&& final(self).model() == (l2, m, o2, x2, n, s)
            }),
    {
        loop
            invariant
                self.spec_id() == old(self).spec_id(),
                ({
                    let (l, m, o, x, n, s) = old(self).model();
                    let (l1, m1, o1, x1, n1, s1) = self.model();
                    &&& m1 == m && n1 == n && s1 == s
                    &&& forever_step(l1, o1, x1, *round) == forever_step(l, o, x, *old(round))
                }),
            decreases (if round.ran_a_task { 4int } else { 0int }) + forever_rank(round.stage),
        {
            match round.stage {
                ForeverStage::LocalQueue => {
                    match self.local_task_queue.pop_front() {
                        Some(t) => {
                            round.ran_a_task = true;
                            return Step::Run(t);
                        },
                        None => {
                            round.stage = ForeverStage::OwnQueue;
                        },
                    }
                },
                ForeverStage::OwnQueue => {
                    match self.task_queue.pop_front() {
                        Some(t) => {
                            round.ran_a_task = true;
                            return Step::Run(t);
                        },
                        None => {
                            round.stage = ForeverStage::OtherQueues;
                        },
                    }
                },
                ForeverStage::OtherQueues => {
                    match self.steal() {
                        Some(t) => {
                            round.stage = ForeverStage::EndOfRound;
                            round.ran_a_task = true;
                            return Step::Run(t);
                        },
                        None => {
                            round.stage = ForeverStage::EndOfRound;
                        },
                    }
                },
                ForeverStage::EndOfRound => {
                    round.stage = ForeverStage::LocalQueue;
                    if round.ran_a_task {
                        round.ran_a_task = false;
                    } else {
                        return Step::Wait;
                    }
                },
            }
        }
    }
}

/// A handle to a task that may run on any thread.
pub fn spawn<T>(worker: &Worker, task: TaskId) -> (h: JoinHandle<T>)
    ensures
        h.task() == Some(JoinHandleInnerTask::NonLocal(task)),
        h.result() is None,
{
    worker.spawn(task)
}

/// A handle to a task that runs on the current thread.
pub fn spawn_local<T>(worker: &Worker, task: TaskId) -> (h: JoinHandle<T>)
    ensures
        h.task() == Some(JoinHandleInnerTask::Local(task, LocalQueue::ThisThread)),
        h.result() is None,
{
    worker.spawn_local(task)
}

/// A handle to a task that runs on the main thread.
pub fn spawn_main<T>(worker: &Worker, task: TaskId) -> (h: JoinHandle<T>)
    ensures
        h.task() == Some(JoinHandleInnerTask::Local(task, LocalQueue::MainThread)),
        h.result() is None,
{
    worker.spawn_main(task)
}

/// Tells all worker threads to stop.
pub fn shutdown_worker_threads(worker: &mut Worker)
    ensures
        final(worker).spec_id() == old(worker).spec_id(),
        ({
            let (l, m, o, x, n, s) = old(worker).model();
            final(worker).model() == (l, m, o, x, n, true)
        }),
{
    worker.shutdown_all();
}

/// The next task that the current thread runs: see `Worker::run_current_thread_tasks`.
pub fn run_current_thread_tasks(worker: &mut Worker, round: &mut Round) -> (r: Option<TaskId>)
    ensures
        final(worker).spec_id() == old(worker).spec_id(),
        ({
            let (l, m, o, x, n, s) = old(worker).model();
            let (t, l2, o2, r2) = round_step(l, o, *old(round), true);
            &&& r == t
            &&& *final(round) == r2
            &&& final(worker).model() == (l2, m, o2, x, n, s)
        }),
{
    worker.run_current_thread_tasks(round)
}

/// The next task that must run on the current thread: see
/// `Worker::run_only_local_tasks`.
pub fn run_only_local_tasks(worker: &mut Worker, round: &mut Round) -> (r: Option<TaskId>)
    ensures
        final(worker).spec_id() == old(worker).spec_id(),
        ({
            let (l, m, o, x, n, s) = old(worker).model();
            let (t, l2, o2, r2) = round_step(l, o, *old(round), x.len() == 0);
            &&& r == t
            &&& *final(round) == r2
            &&& final(worker).model() == (l2, m, o2, x, n, s)
        }),
{
    worker.run_only_local_tasks(round)
}

/// Runs the current thread's local tasks only where there are no other
/// workers to do the work; otherwise nothing is run.
pub fn run_tasks_unless_there_are_workers(worker: &mut Worker, round: &mut Round) -> (r: Option<TaskId>)
    ensures
        final(worker).spec_id() == old(worker).spec_id(),
        ({
            let (l, m, o, x, n, s) = old(worker).model();
            let (t, l2, o2, r2) = round_step(l, o, *old(round), true);
            &&& x.len() == 0 ==> r == t && *final(round) == r2 && final(worker).model() == (
                l2,
                m,
                o2,
                x,
                n,
                s,
            )
            &&& x.len() > 0 ==> r is None && *final(round) == *old(round) && final(worker).model()
                == old(worker).model()
        }),
{
    if worker.other_task_queues.len() == 0 {
        proof {
            assert(queue_views(worker.other_task_queues@).len() == 0);
        }
        worker.run_only_local_tasks(round)
    } else {
        None
    }
}

/// How many workers to create for a machine with `cores_count` cores: one
/// fewer, to leave the system a core, and at least one.
pub fn worker_count(cores_count: usize) -> (r: usize)
    requires
        cores_count >= 1,
    ensures
        r == if cores_count - 1 >= 1 { cores_count - 1 } else { 1 },
{
    let n = cores_count - 1;
    if n >= 1 {
        n
    } else {
        1
    }
}

/// The other workers' queues, by index, as worker `i` of `count` sees them:
/// all queues with `i`'s place taken by the last one.
pub fn other_queue_indices(count: usize, i: usize) -> (r: Vec<usize>)
    requires
        i < count,
    ensures
        r@ == Seq::new(count as nat, |k: int| k as usize).update(i as int, (count - 1) as usize).drop_last(),
{
    let mut all: Vec<usize> = Vec::new();
    let mut k: usize = 0;
    while k < count
        invariant
            k <= count,
            all@ == Seq::new(k as nat, |x: int| x as usize),
        decreases count - k,
    {
        all.push(k);
        k += 1;
        assert(all@ =~= Seq::new(k as nat, |x: int| x as usize));
    }
    all.swap_remove(i);
    all
}

/// Whether `t` was the front of `before`, and `after` is what is left.
pub open spec fn took_front(t: TaskId, before: Seq<TaskId>, after: Seq<TaskId>) -> bool {
    seq![t] + after == before
}

/// Whether every queue is empty.
pub open spec fn all_empty(queues: Seq<Seq<TaskId>>) -> bool {
    forall|j: int| 0 <= j < queues.len() ==> #[trigger] queues[j].len() == 0
}

proof fn lemma_first_nonempty(queues: Seq<Seq<TaskId>>, from: int)
    requires
        0 <= from <= queues.len(),
    ensures
        from <= first_nonempty(queues, from) <= queues.len(),
        first_nonempty(queues, from) < queues.len() ==> queues[first_nonempty(queues, from)].len() > 0,
        forall|j: int| from <= j < first_nonempty(queues, from) ==> #[trigger] queues[j].len() == 0,
    decreases queues.len() - from,
{
    if from < queues.len() && queues[from].len() == 0 {
        lemma_first_nonempty(queues, from + 1);
    }
}

/// A worker's loop takes each task from the front of a queue: the task it
/// runs was the oldest of its local queue, of its own queue or of one other
/// worker's queue, and that queue loses just that task while the others stay
/// as they were. It waits only with every queue as it was. In a new round
/// the local queue comes first, then its own queue, and it waits only where
/// every queue is empty.
#[verifier::spinoff_prover]
#[verifier::rlimit(60)]
pub proof fn lemma_run_forever_takes_the_oldest(
    local: Seq<TaskId>,
    own: Seq<TaskId>,
    others: Seq<Seq<TaskId>>,
    round: ForeverRound,
)
    ensures
        ({
            let (step, l2, o2, x2, r2) = forever_step(local, own, others, round);
            &&& match step {
                Step::Run(t) => {
                    ||| took_front(t, local, l2) && o2 == own && x2 == others
                    ||| l2 == local && took_front(t, own, o2) && x2 == others
                    ||| l2 == local && o2 == own && x2.len() == others.len() && exists|k: int|
                        0 <= k < others.len() && took_front(t, others[k], #[trigger] x2[k]) && forall|j: int|
                            0 <= j < others.len() && j != k ==> x2[j] == others[j]
                },
                Step::Wait => l2 == local && o2 == own && x2 == others,
            }
            &&& (round.stage == ForeverStage::LocalQueue && local.len() > 0) ==> (step matches Step::Run(t)
                && took_front(t, local, l2))
            &&& (round.stage == ForeverStage::LocalQueue && local.len() == 0 && own.len() > 0) ==> (
            step matches Step::Run(t) && took_front(t, own, o2))
            &&& round.stage == ForeverStage::LocalQueue ==> (step == Step::Wait <==> (local.len() == 0
                && own.len() == 0 && all_empty(others)))
        }),
    decreases (if round.ran_a_task { 4int } else { 0int }) + forever_rank(round.stage),
{
    match round.stage {
        ForeverStage::LocalQueue => if local.len() > 0 {
            assert(seq![local[0]] + local.drop_first() =~= local);
        } else {
            lemma_run_forever_takes_the_oldest(local, own, others, ForeverRound { stage: ForeverStage::OwnQueue, ..round });
            if own.len() > 0 {
                assert(seq![own[0]] + own.drop_first() =~= own);
            } else {
                let r1 = ForeverRound { stage: ForeverStage::OtherQueues, ..round };
                lemma_run_forever_takes_the_oldest(local, own, others, r1);
                lemma_first_nonempty(others, 0);
                let k = first_nonempty(others, 0);
                if k < others.len() {
                    assert(!all_empty(others));
                } else {
                    let r2 = ForeverRound { stage: ForeverStage::EndOfRound, ..round };
                    lemma_run_forever_takes_the_oldest(local, own, others, r2);
                    if round.ran_a_task {
                        let r3 = ForeverRound { stage: ForeverStage::LocalQueue, ran_a_task: false };
                        lemma_run_forever_takes_the_oldest(local, own, others, r3);
                    }
                }
            }
        },
        ForeverStage::OwnQueue => if own.len() > 0 {
            assert(seq![own[0]] + own.drop_first() =~= own);
        } else {
            lemma_run_forever_takes_the_oldest(local, own, others, ForeverRound { stage: ForeverStage::OtherQueues, ..round });
        },
        ForeverStage::OtherQueues => {
            lemma_first_nonempty(others, 0);
            let k = first_nonempty(others, 0);
            if k < others.len() {
                let x2 = others.update(k, others[k].drop_first());
                assert(seq![others[k][0]] + x2[k] =~= others[k]);
                assert(took_front(others[k][0], others[k], x2[k]));
            } else {
                lemma_run_forever_takes_the_oldest(local, own, others, ForeverRound { stage: ForeverStage::EndOfRound, ..round });
            }
        },
        ForeverStage::EndOfRound => if round.ran_a_task {
            lemma_run_forever_takes_the_oldest(
                local,
                own,
                others,
                ForeverRound { stage: ForeverStage::LocalQueue, ran_a_task: false },
            );
        },
    }
}

/// Running this thread's tasks takes each from the front of a queue: the
/// task given was the oldest of the local queue, or of the worker's own
/// queue where that is used, and that queue loses just that task; where no
/// task is given the queues stay as they were. At the start of a round the
/// local queue comes first, and no task is given only where the local queue
/// is empty and the own queue is empty or not used.
#[verifier::spinoff_prover]
#[verifier::rlimit(60)]
pub proof fn lemma_round_takes_the_oldest(local: Seq<TaskId>, own: Seq<TaskId>, round: Round, use_own: bool)
    ensures
        ({
            let (t, l2, o2, r2) = round_step(local, own, round, use_own);
            &&& match t {
                Some(task) => (took_front(task, local, l2) && o2 == own) || (use_own && l2 == local
                    && took_front(task, own, o2)),
                None => l2 == local && o2 == own,
            }
            &&& (round.stage == Stage::LocalQueue && local.len() > 0) ==> (t matches Some(task) && took_front(
                task,
                local,
                l2,
            ))
            &&& round.stage == Stage::LocalQueue ==> (t is None <==> (local.len() == 0 && !(use_own
                && own.len() > 0)))
        }),
    decreases (if round.ran_a_task { 4int } else { 0int }) + stage_rank(round.stage),
{
    match round.stage {
        Stage::LocalQueue => if local.len() > 0 {
            assert(seq![local[0]] + local.drop_first() =~= local);
        } else {
            let r1 = Round { stage: Stage::OwnQueue, ..round };
            lemma_round_takes_the_oldest(local, own, r1, use_own);
            if use_own && own.len() > 0 {
                assert(seq![own[0]] + own.drop_first() =~= own);
            } else {
                let r2 = Round { stage: Stage::EndOfRound, ..round };
                lemma_round_takes_the_oldest(local, own, r2, use_own);
                if round.ran_a_task {
                    lemma_round_takes_the_oldest(local, own, Round { stage: Stage::LocalQueue, ran_a_task: false }, use_own);
                }
            }
        },
        Stage::OwnQueue => if use_own && own.len() > 0 {
            assert(seq![own[0]] + own.drop_first() =~= own);
        } else {
            lemma_round_takes_the_oldest(local, own, Round { stage: Stage::EndOfRound, ..round }, use_own);
        },
        Stage::EndOfRound => if round.ran_a_task {
            lemma_round_takes_the_oldest(local, own, Round { stage: Stage::LocalQueue, ran_a_task: false }, use_own);
        },
        Stage::Finished => {},
    }
}

} // verus!
