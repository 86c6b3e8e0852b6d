//! Pools of worker threads: their configuration and the decisions they make.
pub mod oxc_worker;
pub mod worker_pool;
