//! The pool: a fixed set of workers behind one queue.

use vstd::prelude::*;
use std::collections::VecDeque;
use crate::model::PoolState;
use crate::worker::Message;
use crate::worker::Worker;
use crate::worker::WorkerState;

verus! {

/// A fixed number of workers and the queue that feeds them.
///
/// Producers put jobs in with [`ThreadPool::execute`]. A worker asks for its
/// next message with [`ThreadPool::receive`], runs the job it got, and reports
/// back with [`ThreadPool::finish`]. [`ThreadPool::shutdown`] queues one order
/// to stop for each worker behind the jobs that wait.
pub struct ThreadPool<J> {
    workers: Vec<Worker>,
    queue: VecDeque<Message<J>>,
    closing: bool,
    submitted: Ghost<Seq<J>>,
    taken: Ghost<nat>,
    completed: Ghost<nat>,
}

impl<J> View for ThreadPool<J> {
    type V = PoolState<J>;

    closed spec fn view(&self) -> PoolState<J> {
        PoolState {
            workers: Seq::new(self.workers@.len(), |i: int| self.workers@[i].state),
            submitted: self.submitted@,
            taken: self.taken@,
            completed: self.completed@,
            closing: self.closing,
        }
    }
}

impl<J> ThreadPool<J> {
    /// Whether the pool is in order: its state is one that a pool can reach,
    /// the queue holds what waits, and the workers are numbered from zero in
    /// the order they were made.
    pub closed spec fn wf(&self) -> bool {
        &&& self@.inv()
        &&& self.queue@ == self@.pending()
        &&& forall|i: int| 0 <= i < self.workers@.len() ==> self.workers@[i].id == i
    }

    /// A pool in order is in a state that the laws of [`crate::model`] speak
    /// of.
    pub proof fn lemma_wf_inv(&self)
        requires
            self.wf(),
        ensures
            self@.inv(),
    {
    }

    /// Makes a pool of `size` workers, each waiting for its first message.
    pub fn new(size: usize) -> (pool: Self)
        requires
            size > 0,
        ensures
            pool.wf(),
            pool@ == PoolState::<J>::init(size as nat),
    {
        let mut workers: Vec<Worker> = Vec::with_capacity(size);
        let mut id: usize = 0;
        while id < size
            invariant
                id <= size,
                workers@.len() == id,
                forall|i: int| 0 <= i < id ==> workers@[i].id == i && workers@[i].state is Idle,
            decreases size - id,
        {
            workers.push(Worker::new(id));
            id += 1;
        }
        let pool = ThreadPool {
            workers,
            queue: VecDeque::new(),
            closing: false,
            submitted: Ghost(Seq::empty()),
            taken: Ghost(0),
            completed: Ghost(0),
        };
        proof {
            crate::model::lemma_init_inv::<J>(size as nat);
            assert(pool@.workers =~= PoolState::<J>::init(size as nat).workers);
            assert(pool.queue@ =~= pool@.pending());
        }
        pool
    }

    /// The number of workers.
    pub fn size(&self) -> (size: usize)
        ensures
            size == self@.size(),
    {
        self.workers.len()
    }

    /// Puts `job` at the end of the queue. It does not wait for the job to
    /// run; the queue has no bound.
    pub fn execute(&mut self, job: J)
        requires
            old(self).wf(),
            !old(self)@.closing,
        ensures
            final(self).wf(),
            final(self)@ == old(self)@.execute(job),
    {
        proof {
            crate::model::lemma_next_inv(self@, crate::model::Step::Execute(job));
        }
        self.submitted = Ghost(self.submitted@.push(job));
        self.queue.push_back(Message::NewJob(job));
        assert(self.queue@ =~= self@.pending());
        assert(self@.workers =~= old(self)@.workers);
    }

    /// Hands the next message to worker `id`, or `None` when the queue is
    /// empty and the worker has to wait.
    ///
    /// Messages leave in the order they were put in. A worker that gets a job
    /// is running it from then on, until [`ThreadPool::finish`]; a worker that
    /// gets the order to stop has stopped.
    pub fn receive(&mut self, id: usize) -> (message: Option<Message<J>>)
        requires
            old(self).wf(),
            id < old(self)@.size(),
            old(self)@.workers[id as int] is Idle,
        ensures
            final(self).wf(),
            message is None <==> old(self)@.pending().len() == 0,
            message is None ==> final(self)@ == old(self)@,
            message is Some ==> message == Some(old(self)@.pending()[0]) && final(self)@ == old(
                self,
            )@.receive(id as nat),
    {
        let message = self.queue.pop_front();
        match &message {
            None => {
                assert(self@.workers =~= old(self)@.workers);
            },
            Some(taken) => {
                proof {
                    crate::model::lemma_next_inv(self@, crate::model::Step::Receive(id as nat));
                }
                let mut worker = self.workers[id];
                worker.on_message(taken);
                self.workers.set(id, worker);
                self.taken = Ghost(self.taken@ + 1);
                assert(self@.workers =~= old(self)@.receive(id as nat).workers);
                assert(self.queue@ =~= self@.pending());
            },
        }
        message
    }

    /// Records that the job worker `id` was running has returned: the worker
    /// waits for its next message.
    pub fn finish(&mut self, id: usize)
        requires
            old(self).wf(),
            id < old(self)@.size(),
            old(self)@.workers[id as int] is Executing,
        ensures
            final(self).wf(),
            final(self)@ == old(self)@.finish(id as nat),
    {
        proof {
            crate::model::lemma_next_inv(self@, crate::model::Step::Finish(id as nat));
        }
        let mut worker = self.workers[id];
        worker.on_job_done();
        self.workers.set(id, worker);
        self.completed = Ghost(self.completed@ + 1);
        assert(self@.workers =~= old(self)@.finish(id as nat).workers);
        assert(self.queue@ =~= self@.pending());
    }

    /// Begins to shut the pool down: queues exactly one order to stop for each
    /// worker, behind every job that waits. The workers have stopped once
    /// [`ThreadPool::all_terminated`] holds.
    pub fn shutdown(&mut self)
        requires
            old(self).wf(),
            !old(self)@.closing,
        ensures
            final(self).wf(),
            final(self)@ == old(self)@.shutdown(),
    {
        proof {
            crate::model::lemma_next_inv(self@, crate::model::Step::Shutdown);
        }
        let size = self.workers.len();
        let mut sent: usize = 0;
        while sent < size
            invariant
                sent <= size,
                size == self.workers@.len(),
                self.workers == old(self).workers,
                self.closing == old(self).closing,
                self.submitted == old(self).submitted,
                self.taken == old(self).taken,
                self.completed == old(self).completed,
                self.queue@ == old(self).queue@ + Seq::new(
                    sent as nat,
                    |i: int| Message::<J>::Terminate,
                ),
            decreases size - sent,
        {
            self.queue.push_back(Message::Terminate);
            sent += 1;
            assert(self.queue@ =~= old(self).queue@ + Seq::new(
                sent as nat,
                |i: int| Message::<J>::Terminate,
            ));
        }
        self.closing = true;
        assert(self@.workers =~= old(self)@.workers);
        assert(self.queue@ =~= self@.pending());
    }

    /// The numbers of the workers in the order they were made, which is the
    /// order in which a shutdown waits for them.
    pub fn worker_ids(&self) -> (ids: Vec<usize>)
        requires
            self.wf(),
        ensures
            ids@ == Seq::new(self@.size(), |i: int| i as usize),
    {
        let mut ids: Vec<usize> = Vec::with_capacity(self.workers.len());
        let mut i: usize = 0;
        while i < self.workers.len()
            invariant
                self.wf(),
                i <= self.workers@.len(),
                ids@ == Seq::new(i as nat, |k: int| k as usize),
            decreases self.workers@.len() - i,
        {
            ids.push(self.workers[i].id);
            i += 1;
            assert(ids@ =~= Seq::new(i as nat, |k: int| k as usize));
        }
        ids
    }

    /// Where worker `id` stands.
    pub fn worker_state(&self, id: usize) -> (state: WorkerState)
        requires
            id < self@.size(),
        ensures
            state == self@.workers[id as int],
    {
        self.workers[id].state
    }

    /// How many messages wait in the queue.
    pub fn pending_len(&self) -> (len: usize)
        requires
            self.wf(),
        ensures
            len == self@.pending().len(),
    {
        self.queue.len()
    }

    /// Whether the pool has begun to shut down.
    pub fn is_shutting_down(&self) -> (closing: bool)
        ensures
            closing == self@.closing,
    {
        self.closing
    }

    /// Whether every worker has stopped: the shutdown is complete.
    pub fn all_terminated(&self) -> (stopped: bool)
        ensures
            stopped == self@.all_terminated(),
    {
        let mut i: usize = 0;
        while i < self.workers.len()
            invariant
                i <= self.workers@.len(),
                forall|k: int| 0 <= k < i ==> self@.workers[k] is Terminated,
            decreases self.workers@.len() - i,
        {
            match self.workers[i].state {
                WorkerState::Terminated => {},
                _ => {
                    assert(!(self@.workers[i as int] is Terminated));
                    return false;
                },
            }
            i += 1;
        }
        true
    }
}

} // verus!
