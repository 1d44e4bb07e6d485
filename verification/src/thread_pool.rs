//! The thread-pool capability and the decision a pool worker takes on each
//! turn of its polling loop. The pools themselves spawn operating-system
//! threads, which the verified library leaves to its callers: they implement
//! the capability and run the loop that `worker_step` decides.

use vstd::prelude::*;

use crate::engine::KvError;

verus! {

/// A simple interface for a pool of workers executing one-shot jobs.
pub trait ThreadPool: Sized {
    /// Initialize a pool with the given number of threads.
    fn new(threads: u32) -> Result<Self, KvError>;

    /// Dispatch a job to one of the ready threads.
    fn spawn<F>(&self, job: F) where F: FnOnce() + Send + 'static
        requires
            job.requires(()),
    ;
}

/// What a worker of a shared-queue pool does on one turn of its polling
/// loop.
#[derive(Debug, Clone, Copy, PartialEq, Eq, Structural)]
pub enum WorkerStep {
    /// The pool is shutting down: leave the loop.
    Exit,
    /// A job stood at the head of the queue: run it, then poll again.
    Run,
    /// The queue was empty: wait for work, then poll again.
    Wait,
}

/// One decision of a worker's polling loop, from what the worker observed:
/// the termination flag wins over everything, a popped job is run, and an
/// empty queue means waiting. The loop around it only moves the queue's
/// lock and the clock.
pub fn worker_step(terminated: bool, job_available: bool) -> (s: WorkerStep)
    ensures
        s == (if terminated {
            WorkerStep::Exit
        } else if job_available {
            WorkerStep::Run
        } else {
            WorkerStep::Wait
        }),
{
    if terminated {
        WorkerStep::Exit
    } else if job_available {
        WorkerStep::Run
    } else {
        WorkerStep::Wait
    }
}

} // verus!
