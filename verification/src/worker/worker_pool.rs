//! The configuration of a worker pool and its scaling decision.
use vstd::prelude::*;

verus! {

/// What can go wrong with a worker pool.
#[derive(Debug, Clone, Copy, PartialEq, Eq, Structural)]
pub enum WorkerPoolError {
    /// Worker pool started multiple times
    StartMultipleTimes,
    /// Worker pool not started
    NotStarted,
    /// Task cancelled or worker panicked
    Canceled,
}

impl WorkerPoolError {
    /// The message of the error.
    pub fn message(&self) -> (r: &'static str)
        ensures
            r@ == match self {
                WorkerPoolError::StartMultipleTimes => "Worker pool started multiple times"@,
                WorkerPoolError::NotStarted => "Worker pool not started"@,
                WorkerPoolError::Canceled => "Task cancelled or worker panicked"@,
            },
    {
        match self {
            WorkerPoolError::StartMultipleTimes => "Worker pool started multiple times",
            WorkerPoolError::NotStarted => "Worker pool not started",
            WorkerPoolError::Canceled => "Task cancelled or worker panicked",
        }
    }
}

/// How many workers a pool keeps, and how long an idle worker lives.
#[derive(Debug, Clone, Copy, PartialEq, Eq, Structural)]
pub struct PoolConfig {
    pub max_workers: usize,
    pub min_workers: usize,
    /// In seconds.
    pub idle_timeout: u64,
}

impl PoolConfig {
    /// Whether one more worker is started: the pool is below its maximum, and it has
    /// no worker at all or work is waiting.
    pub fn should_spawn_worker(&self, current: usize, queue_is_empty: bool) -> (r: bool)
        ensures
            r == (current < self.max_workers && (current == 0 || !queue_is_empty)),
    {
        current < self.max_workers && (current == 0 || !queue_is_empty)
    }

    /// How many jobs the queue of the pool holds at most: twice the maximum of workers.
    pub fn queue_bound(&self) -> (r: usize)
        requires
            self.max_workers * 2 <= usize::MAX,
        ensures
            r == self.max_workers * 2,
    {
        self.max_workers * 2
    }
}

} // verus!
