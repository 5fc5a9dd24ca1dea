//! The pool as a transition system over plain sequences.
//!
//! A state holds the workers' states, every job submitted so far in the order
//! of submission, how many messages the workers have taken, and how many jobs
//! have returned. The messages ever sent are the jobs, followed, once the pool
//! shuts down, by one order to stop for each worker; workers take them from
//! the front. Everything else is derived from that.

use vstd::prelude::*;
use crate::worker::Message;
use crate::worker::WorkerState;

verus! {

/// How many of `workers` are in `state`.
pub open spec fn count_in(workers: Seq<WorkerState>, state: WorkerState) -> nat
    decreases workers.len(),
{
    if workers.len() == 0 {
        0
    } else {
        count_in(workers.drop_last(), state) + if workers.last() == state {
            1nat
        } else {
            0nat
        }
    }
}

/// A pool at one moment.
pub ghost struct PoolState<J> {
    /// The state of each worker, by its number.
    pub workers: Seq<WorkerState>,
    /// Every job submitted so far, in the order of submission.
    pub submitted: Seq<J>,
    /// How many messages the workers have taken from the queue.
    pub taken: nat,
    /// How many jobs have returned.
    pub completed: nat,
    /// Whether the pool has begun to shut down.
    pub closing: bool,
}

/// One move of the pool.
pub ghost enum Step<J> {
    /// A producer submits a job.
    Execute(J),
    /// The worker of this number takes the next message.
    Receive(nat),
    /// The job that the worker of this number was running returns.
    Finish(nat),
    /// The pool begins to shut down.
    Shutdown,
}

impl<J> PoolState<J> {
    /// A new pool: `size` idle workers and nothing submitted.
    pub open spec fn init(size: nat) -> Self {
        PoolState {
            workers: Seq::new(size, |i: int| WorkerState::Idle),
            submitted: Seq::empty(),
            taken: 0,
            completed: 0,
            closing: false,
        }
    }

    /// The number of workers.
    pub open spec fn size(self) -> nat {
        self.workers.len()
    }

    /// Every message sent so far, in order: the jobs, then, once the pool shuts
    /// down, one order to stop for each worker.
    pub open spec fn sent(self) -> Seq<Message<J>> {
        Seq::new(
            self.submitted.len() + if self.closing {
                self.workers.len()
            } else {
                0
            },
            |i: int|
                if i < self.submitted.len() {
                    Message::NewJob(self.submitted[i])
                } else {
                    Message::Terminate
                },
        )
    }

    /// The messages that wait in the queue, the next one to be taken first.
    pub open spec fn pending(self) -> Seq<Message<J>> {
        self.sent().subrange(self.taken as int, self.sent().len() as int)
    }

    /// The messages that workers have taken, in the order they were taken.
    pub open spec fn delivered(self) -> Seq<Message<J>> {
        self.sent().subrange(0, self.taken as int)
    }

    /// How many jobs have been handed to a worker.
    pub open spec fn started_len(self) -> nat {
        if self.taken <= self.submitted.len() {
            self.taken
        } else {
            self.submitted.len()
        }
    }

    /// The jobs that have been handed to a worker, in the order they were
    /// handed out.
    pub open spec fn started(self) -> Seq<J> {
        self.submitted.subrange(0, self.started_len() as int)
    }

    /// How many orders to stop have been taken.
    pub open spec fn stops_taken(self) -> nat {
        (self.taken - self.started_len()) as nat
    }

    /// Whether every worker has stopped.
    pub open spec fn all_terminated(self) -> bool {
        forall|i: int| 0 <= i < self.workers.len() ==> self.workers[i] is Terminated
    }

    /// What holds of every state that a pool can reach.
    ///
    /// There is at least one worker; no more was taken than was sent; each
    /// order to stop that was taken stopped one worker; and each job handed
    /// out has returned or is being run by one worker.
    pub open spec fn inv(self) -> bool {
        &&& self.workers.len() > 0
        &&& self.taken <= self.sent().len()
        &&& count_in(self.workers, WorkerState::Terminated) == self.stops_taken()
        &&& count_in(self.workers, WorkerState::Executing) + self.completed == self.started_len()
    }

    /// The state after `job` was submitted.
    pub open spec fn execute(self, job: J) -> Self {
        PoolState { submitted: self.submitted.push(job), ..self }
    }

    /// Whether worker `id` can take a message: it is idle and one waits.
    pub open spec fn can_receive(self, id: nat) -> bool {
        &&& id < self.workers.len()
        &&& self.workers[id as int] is Idle
        &&& self.taken < self.sent().len()
    }

    /// The state after worker `id` took the next message.
    pub open spec fn receive(self, id: nat) -> Self {
        PoolState {
            workers: self.workers.update(
                id as int,
                self.workers[id as int].after_message(self.sent()[self.taken as int] is Terminate),
            ),
            taken: self.taken + 1,
            ..self
        }
    }

    /// Whether worker `id` is running a job.
    pub open spec fn can_finish(self, id: nat) -> bool {
        &&& id < self.workers.len()
        &&& self.workers[id as int] is Executing
    }

    /// The state after the job that worker `id` was running returned.
    pub open spec fn finish(self, id: nat) -> Self {
        PoolState {
            workers: self.workers.update(id as int, self.workers[id as int].after_job()),
            completed: self.completed + 1,
            ..self
        }
    }

    /// The state after the pool began to shut down: one order to stop for each
    /// worker stands behind everything submitted before.
    pub open spec fn shutdown(self) -> Self {
        PoolState { closing: true, ..self }
    }

    /// Whether `step` can be made in this state.
    pub open spec fn enabled(self, step: Step<J>) -> bool {
        match step {
            Step::Execute(_) => !self.closing,
            Step::Receive(id) => self.can_receive(id),
            Step::Finish(id) => self.can_finish(id),
            Step::Shutdown => !self.closing,
        }
    }

    /// The state after `step`.
    pub open spec fn next(self, step: Step<J>) -> Self {
        match step {
            Step::Execute(job) => self.execute(job),
            Step::Receive(id) => self.receive(id),
            Step::Finish(id) => self.finish(id),
            Step::Shutdown => self.shutdown(),
        }
    }

    /// The state after all of `steps`, made in order.
    pub open spec fn run(self, steps: Seq<Step<J>>) -> Self
        decreases steps.len(),
    {
        if steps.len() == 0 {
            self
        } else {
            self.run(steps.drop_last()).next(steps.last())
        }
    }

    /// Whether each of `steps` can be made when its turn comes.
    pub open spec fn admits(self, steps: Seq<Step<J>>) -> bool
        decreases steps.len(),
    {
        if steps.len() == 0 {
            true
        } else {
            &&& self.admits(steps.drop_last())
            &&& self.run(steps.drop_last()).enabled(steps.last())
        }
    }

    /// How many jobs wait in the queue.
    pub open spec fn jobs_waiting(self) -> nat {
        (self.submitted.len() - self.started_len()) as nat
    }

    /// How many orders to stop wait in the queue.
    pub open spec fn stops_waiting(self) -> nat {
        (self.sent().len() - self.submitted.len() - self.stops_taken()) as nat
    }

    /// What is left to do before a pool that shuts down has stopped: two moves
    /// for each waiting job (it is taken, and it returns), one for each
    /// waiting order to stop, one for each job being run.
    pub open spec fn work_left(self) -> nat {
        2 * self.jobs_waiting() + self.stops_waiting() + count_in(
            self.workers,
            WorkerState::Executing,
        )
    }
}

/// The jobs that `steps` submit, in order.
pub open spec fn submissions<J>(steps: Seq<Step<J>>) -> Seq<J>
    decreases steps.len(),
{
    if steps.len() == 0 {
        Seq::empty()
    } else {
        match steps.last() {
            Step::Execute(job) => submissions(steps.drop_last()).push(job),
            _ => submissions(steps.drop_last()),
        }
    }
}

/// Changing one worker's state moves one count down and one up.
pub proof fn lemma_count_update(
    workers: Seq<WorkerState>,
    i: int,
    to: WorkerState,
    state: WorkerState,
)
    requires
        0 <= i < workers.len(),
    ensures
        count_in(workers.update(i, to), state) + (if workers[i] == state {
            1nat
        } else {
            0nat
        }) == count_in(workers, state) + (if to == state {
            1nat
        } else {
            0nat
        }),
    decreases workers.len(),
{
    let changed = workers.update(i, to);
    if i == workers.len() - 1 {
        assert(changed.drop_last() =~= workers.drop_last());
    } else {
        lemma_count_update(workers.drop_last(), i, to, state);
        assert(changed.drop_last() =~= workers.drop_last().update(i, to));
    }
}

/// A count is at most the number of workers; it is that number exactly when
/// every worker is in the state, and zero exactly when none is.
pub proof fn lemma_count_bounds(workers: Seq<WorkerState>, state: WorkerState)
    ensures
        count_in(workers, state) <= workers.len(),
        count_in(workers, state) == workers.len() <==> (forall|i: int|
            0 <= i < workers.len() ==> workers[i] == state),
        count_in(workers, state) == 0 <==> (forall|i: int|
            0 <= i < workers.len() ==> workers[i] != state),
    decreases workers.len(),
{
    if workers.len() > 0 {
        let front = workers.drop_last();
        lemma_count_bounds(front, state);
        assert(forall|i: int| 0 <= i < front.len() ==> front[i] == workers[i]);
        if count_in(workers, state) == workers.len() {
            assert(workers.last() == state);
            assert(forall|i: int| 0 <= i < workers.len() ==> workers[i] == state) by {
                assert forall|i: int| 0 <= i < workers.len() implies workers[i] == state by {
                    if i < front.len() {
                        assert(front[i] == state);
                    }
                }
            }
        }
        if forall|i: int| 0 <= i < workers.len() ==> workers[i] == state {
            assert(forall|i: int| 0 <= i < front.len() ==> front[i] == state);
            assert(workers.last() == state);
        }
        if count_in(workers, state) == 0 {
            assert forall|i: int| 0 <= i < workers.len() implies workers[i] != state by {
                if i < front.len() {
                    assert(front[i] != state);
                }
            }
        }
        if forall|i: int| 0 <= i < workers.len() ==> workers[i] != state {
            assert(forall|i: int| 0 <= i < front.len() ==> front[i] != state);
            assert(workers.last() != state);
        }
    }
}

/// A new pool of `size` workers has exactly `size` workers, all of them
/// waiting, and is a state that a pool can be in.
pub proof fn lemma_init_inv<J>(size: nat)
    requires
        size > 0,
    ensures
        PoolState::<J>::init(size).inv(),
        PoolState::<J>::init(size).size() == size,
        count_in(PoolState::<J>::init(size).workers, WorkerState::Idle) == size,
{
    let s = PoolState::<J>::init(size);
    lemma_count_bounds(s.workers, WorkerState::Idle);
    lemma_count_bounds(s.workers, WorkerState::Terminated);
    lemma_count_bounds(s.workers, WorkerState::Executing);
}

/// Every move keeps the pool in a state it can be in, keeps the number of
/// workers, and never brings a stopped worker back.
pub proof fn lemma_next_inv<J>(s: PoolState<J>, step: Step<J>)
    requires
        s.inv(),
        s.enabled(step),
    ensures
        s.next(step).inv(),
        s.next(step).size() == s.size(),
        forall|i: int|
            0 <= i < s.size() && s.workers[i] is Terminated ==> s.next(step).workers[i]
                is Terminated,
{
    let t = s.next(step);
    match step {
        Step::Execute(job) => {
            assert(t.workers == s.workers);
        },
        Step::Receive(id) => {
            lemma_count_update(s.workers, id as int, t.workers[id as int], WorkerState::Terminated);
            lemma_count_update(s.workers, id as int, t.workers[id as int], WorkerState::Executing);
        },
        Step::Finish(id) => {
            lemma_count_update(s.workers, id as int, t.workers[id as int], WorkerState::Terminated);
            lemma_count_update(s.workers, id as int, t.workers[id as int], WorkerState::Executing);
        },
        Step::Shutdown => {
            lemma_count_bounds(s.workers, WorkerState::Terminated);
        },
    }
}

/// Every run keeps the pool in a state it can be in, and keeps its size: the
/// number of workers is fixed when the pool is made.
pub proof fn lemma_run_inv<J>(s: PoolState<J>, steps: Seq<Step<J>>)
    requires
        s.inv(),
        s.admits(steps),
    ensures
        s.run(steps).inv(),
        s.run(steps).size() == s.size(),
    decreases steps.len(),
{
    if steps.len() > 0 {
        lemma_run_inv(s, steps.drop_last());
        lemma_next_inv(s.run(steps.drop_last()), steps.last());
    }
}

/// Jobs are handed to workers in the order they were submitted, each at most
/// once: over any run, what was submitted before stays at the front of what is
/// submitted, what was handed out before stays at the front of what is handed
/// out, and what is handed out is the front of what is submitted.
pub proof fn lemma_run_fifo<J>(s: PoolState<J>, steps: Seq<Step<J>>)
    requires
        s.inv(),
        s.admits(steps),
    ensures
        s.run(steps).submitted == s.submitted + submissions(steps),
        s.submitted.is_prefix_of(s.run(steps).submitted),
        s.started().is_prefix_of(s.run(steps).started()),
        s.run(steps).started().is_prefix_of(s.run(steps).submitted),
        s.taken <= s.run(steps).taken,
        s.completed <= s.run(steps).completed,
        s.closing ==> s.run(steps).closing && s.run(steps).submitted == s.submitted,
    decreases steps.len(),
{
    if steps.len() > 0 {
        let before = s.run(steps.drop_last());
        lemma_run_fifo(s, steps.drop_last());
        lemma_run_inv(s, steps.drop_last());
        let after = before.next(steps.last());
        assert(before.submitted.is_prefix_of(after.submitted));
        assert(before.started().is_prefix_of(after.started()));
        assert(after.submitted =~= s.submitted + submissions(steps));
    } else {
        assert(s.submitted =~= s.submitted + submissions(steps));
    }
}

/// A worker takes an order to stop only after every job submitted has been
/// handed to a worker: no job that was in the queue when the pool began to
/// shut down is left behind.
pub proof fn lemma_jobs_before_stops<J>(s: PoolState<J>)
    requires
        s.inv(),
        exists|i: int| 0 <= i < s.workers.len() && s.workers[i] is Terminated,
    ensures
        s.closing,
        s.started() == s.submitted,
        forall|k: int| 0 <= k < s.submitted.len() ==> s.delivered()[k] == Message::NewJob(s.submitted[k]),
{
    lemma_count_bounds(s.workers, WorkerState::Terminated);
    assert(s.started() =~= s.submitted);
}

/// Once every worker has stopped, nothing waits in the queue, every job
/// submitted was handed to a worker, and every one of them has returned.
pub proof fn lemma_stopped_pool_is_done<J>(s: PoolState<J>)
    requires
        s.inv(),
        s.all_terminated(),
    ensures
        s.closing,
        s.pending().len() == 0,
        s.started() == s.submitted,
        s.completed == s.submitted.len(),
{
    lemma_count_bounds(s.workers, WorkerState::Terminated);
    lemma_count_bounds(s.workers, WorkerState::Executing);
    assert(s.started() =~= s.submitted);
}

/// Every job is run exactly once, in the order of submission: when a run
/// that began with a new pool has stopped every worker, the jobs handed to
/// workers are the jobs that the run submitted, one for one and in that order,
/// each of them has returned, and nothing waits.
pub proof fn lemma_every_job_runs_once<J>(size: nat, steps: Seq<Step<J>>)
    requires
        size > 0,
        PoolState::<J>::init(size).admits(steps),
        PoolState::<J>::init(size).run(steps).all_terminated(),
    ensures
        PoolState::<J>::init(size).run(steps).started() == submissions(steps),
        PoolState::<J>::init(size).run(steps).completed == submissions(steps).len(),
        PoolState::<J>::init(size).run(steps).pending().len() == 0,
        PoolState::<J>::init(size).run(steps).size() == size,
{
    let s = PoolState::<J>::init(size);
    lemma_init_inv::<J>(size);
    lemma_run_inv(s, steps);
    lemma_run_fifo(s, steps);
    lemma_stopped_pool_is_done(s.run(steps));
    assert(s.submitted + submissions(steps) =~= submissions(steps));
}

/// A pool that shuts down never gets stuck before every worker has stopped:
/// while one has not, it is running a job, which can return, or it is idle
/// and an order to stop or a job waits for it.
pub proof fn lemma_shutdown_progress<J>(s: PoolState<J>) -> (step: Step<J>)
    requires
        s.inv(),
        s.closing,
        !s.all_terminated(),
    ensures
        s.enabled(step),
        step is Receive || step is Finish,
{
    let i = choose|i: int| 0 <= i < s.workers.len() && !(s.workers[i] is Terminated);
    lemma_count_bounds(s.workers, WorkerState::Terminated);
    if s.workers[i] is Executing {
        Step::Finish(i as nat)
    } else {
        Step::Receive(i as nat)
    }
}

/// In a pool that shuts down every move uses up one unit of the work left, so
/// no run is longer than the work left at its start: the workers stop after
/// finitely many moves.
pub proof fn lemma_shutdown_terminates<J>(s: PoolState<J>, steps: Seq<Step<J>>)
    requires
        s.inv(),
        s.closing,
        s.admits(steps),
    ensures
        s.run(steps).work_left() + steps.len() == s.work_left(),
    decreases steps.len(),
{
    if steps.len() > 0 {
        let before = s.run(steps.drop_last());
        lemma_shutdown_terminates(s, steps.drop_last());
        lemma_run_inv(s, steps.drop_last());
        lemma_run_fifo(s, steps.drop_last());
        let step = steps.last();
        let after = before.next(step);
        match step {
            Step::Execute(job) => {},
            Step::Receive(id) => {
                lemma_count_update(
                    before.workers,
                    id as int,
                    after.workers[id as int],
                    WorkerState::Executing,
                );
            },
            Step::Finish(id) => {
                lemma_count_update(
                    before.workers,
                    id as int,
                    after.workers[id as int],
                    WorkerState::Executing,
                );
            },
            Step::Shutdown => {},
        }
    }
}

/// A worker whose job returned can take the message at the front of the
/// queue: a job that waited behind busy workers runs once one of them is free.
pub proof fn lemma_freed_worker_takes_next<J>(s: PoolState<J>, id: nat)
    requires
        s.inv(),
        s.can_finish(id),
        s.pending().len() > 0,
    ensures
        s.finish(id).can_receive(id),
        s.finish(id).receive(id).delivered() == s.delivered().push(s.pending()[0]),
{
    let t = s.finish(id);
    assert(t.sent() =~= s.sent());
    assert(t.receive(id).sent() =~= s.sent());
    assert(t.receive(id).delivered() =~= s.delivered().push(s.pending()[0]));
}

/// While no worker is idle, no message leaves the queue: a job submitted to a
/// pool whose workers are all busy waits until one of their jobs returns.
pub proof fn lemma_busy_pool_waits<J>(s: PoolState<J>, step: Step<J>)
    requires
        s.inv(),
        s.enabled(step),
        forall|i: int| 0 <= i < s.workers.len() ==> !(s.workers[i] is Idle),
    ensures
        !(step is Receive),
        !(step is Finish) ==> s.next(step).taken == s.taken,
{
}

} // verus!
