//! Messages and the life of one worker.
//!
//! A worker waits for a message, runs the job it carries and waits again, or
//! stops for good when told to terminate.

use vstd::prelude::*;

verus! {

/// What travels through the queue: a job to run, or the order to stop.
#[derive(Debug, PartialEq, Eq)]
pub enum Message<J> {
    /// A job, to be run once by the worker that takes it.
    NewJob(J),
    /// Stops the worker that takes it.
    Terminate,
}

/// Where a worker stands.
#[derive(Clone, Copy, Debug, PartialEq, Eq, Structural)]
pub enum WorkerState {
    /// Waiting for a message.
    Idle,
    /// Running a job.
    Executing,
    /// Stopped; it takes no further message.
    Terminated,
}

impl WorkerState {
    /// The state after a message was taken: an idle worker runs a job or
    /// stops; a worker in another state takes no message and stays as it is.
    pub open spec fn after_message(self, terminate: bool) -> WorkerState {
        if self is Idle {
            if terminate {
                WorkerState::Terminated
            } else {
                WorkerState::Executing
            }
        } else {
            self
        }
    }

    /// The state after the job at hand returned: back to waiting.
    pub open spec fn after_job(self) -> WorkerState {
        if self is Executing {
            WorkerState::Idle
        } else {
            self
        }
    }
}

/// One worker of a pool: its number and where it stands.
#[derive(Clone, Copy, Debug)]
pub struct Worker {
    /// Number of the worker, unique within its pool.
    pub id: usize,
    /// Where the worker stands.
    pub state: WorkerState,
}

impl Worker {
    /// A worker that waits for its first message.
    pub fn new(id: usize) -> (worker: Worker)
        ensures
            worker.id == id,
            worker.state == WorkerState::Idle,
    {
        Worker { id, state: WorkerState::Idle }
    }

    /// Records that this worker took `message` from the queue.
    pub fn on_message<J>(&mut self, message: &Message<J>)
        requires
            old(self).state is Idle,
        ensures
            final(self).id == old(self).id,
            final(self).state == old(self).state.after_message(message is Terminate),
    {
        match message {
            Message::NewJob(_) => {
                self.state = WorkerState::Executing;
            },
            Message::Terminate => {
                self.state = WorkerState::Terminated;
            },
        }
    }

    /// Records that the job this worker was running returned.
    pub fn on_job_done(&mut self)
        requires
            old(self).state is Executing,
        ensures
            final(self).id == old(self).id,
            final(self).state == old(self).state.after_job(),
    {
        self.state = WorkerState::Idle;
    }
}

/// No message and no finished job brings a stopped worker back.
pub proof fn lemma_terminated_is_final(state: WorkerState, terminate: bool)
    requires
        state is Terminated,
    ensures
        state.after_message(terminate) is Terminated,
        state.after_job() is Terminated,
{
}

} // verus!
