//! Capacities and sizes worked out from what the machine has.
use vstd::prelude::*;

use crate::worker::worker_pool::PoolConfig;

verus! {

/// What the heuristics read of the machine.
#[derive(Debug, Clone, Copy, PartialEq, Eq, Structural)]
pub struct SystemSnapshot {
    /// In bytes.
    pub total_memory: u64,
    /// The number of logical processors.
    pub cpu_count: usize,
}

/// A tenth of the memory, kept between 4 MiB and 4 GiB.
pub fn determine_memory_cache_size_for_cas(system: &SystemSnapshot) -> (r: u64)
    ensures
        r as int == if system.total_memory / 10 < 4 * 1024 * 1024 {
            4 * 1024 * 1024
        } else if system.total_memory / 10 > 4 * 1024 * 1024 * 1024 {
            4 * 1024 * 1024 * 1024
        } else {
            (system.total_memory / 10) as nat
        },
{
    let target = system.total_memory / 10;
    if target < 4 * 1024 * 1024 {
        4 * 1024 * 1024
    } else if target > 4 * 1024 * 1024 * 1024 {
        4 * 1024 * 1024 * 1024
    } else {
        target
    }
}

/// How long a cached entry lives, in seconds: thirty minutes.
pub fn determine_memory_ttl_for_cas(_system: &SystemSnapshot) -> (r: u64)
    ensures
        r == 60 * 30,
{
    60 * 30
}

/// How long an unused cached entry lives, in seconds: five minutes.
pub fn determine_memory_tti_for_cas(_system: &SystemSnapshot) -> (r: u64)
    ensures
        r == 5 * 60,
{
    5 * 60
}

/// One transpiler worker.
pub fn determine_oxc_workers_count(_system: &SystemSnapshot) -> (r: usize)
    ensures
        r == 1,
{
    1
}

/// Half the processors, but at most one.
pub fn determine_v8_workers_count(system: &SystemSnapshot) -> (r: usize)
    ensures
        r == if system.cpu_count / 2 < 1 {
            system.cpu_count / 2
        } else {
            1
        },
{
    let half = system.cpu_count / 2;
    if half < 1 {
        half
    } else {
        1
    }
}

/// The transpiler pool: its worker count, at least one worker, a minute of idleness.
pub fn determine_oxc_workers_config(system: &SystemSnapshot) -> (r: PoolConfig)
    ensures
        r == (PoolConfig { max_workers: 1, min_workers: 1, idle_timeout: 60 }),
{
    PoolConfig { max_workers: determine_oxc_workers_count(system), min_workers: 1, idle_timeout: 60 }
}

/// The script engine pool: its worker count, at least one worker, a minute of idleness.
pub fn determine_v8_workers_config(system: &SystemSnapshot) -> (r: PoolConfig)
    ensures
        r == (PoolConfig {
            max_workers: if system.cpu_count / 2 < 1 {
                system.cpu_count / 2
            } else {
                1
            },
            min_workers: 1,
            idle_timeout: 60,
        }),
{
    PoolConfig { max_workers: determine_v8_workers_count(system), min_workers: 1, idle_timeout: 60 }
}

/// The stack of each runtime thread: 4 MiB.
pub fn determine_tokio_thread_stack_size(_system: &SystemSnapshot) -> (r: usize)
    ensures
        r == 1024 * 1024 * 4,
{
    1024 * 1024 * 4
}

/// The store under the cache directory, or under the home directory when there is none.
pub fn determine_local_cas_path(cache_dir: Option<&str>) -> (r: String)
    ensures
        r@ == match cache_dir {
            Some(d) => d@ + "/zako/cas"@,
            None => "~//zako/cas"@,
        },
{
    match cache_dir {
        Some(d) => {
            let mut s = String::from_str(d);
            s.append("/zako/cas");
            s
        },
        None => {
            let s = String::from_str("~//zako/cas");
            s
        },
    }
}

/// One unit of processor capacity per logical processor.
pub fn determine_cpu_capacity(system: &SystemSnapshot) -> (r: u64)
    ensures
        r == system.cpu_count,
{
    system.cpu_count as u64
}

/// All the memory of the machine.
pub fn determine_memory_capacity(system: &SystemSnapshot) -> (r: u64)
    ensures
        r == system.total_memory,
{
    system.total_memory
}

/// Two concurrent disk operations per processor, and at least four.
pub fn determine_disk_io_capacity(system: &SystemSnapshot) -> (r: u64)
    requires
        system.cpu_count * 2 <= usize::MAX,
    ensures
        r == if system.cpu_count * 2 < 4 {
            4
        } else {
            system.cpu_count * 2
        },
{
    let n = system.cpu_count * 2;
    if n < 4 {
        4
    } else {
        n as u64
    }
}

/// Four concurrent network operations per processor, and at least eight.
pub fn determine_network_capacity(system: &SystemSnapshot) -> (r: u64)
    requires
        system.cpu_count * 4 <= usize::MAX,
    ensures
        r == if system.cpu_count * 4 < 8 {
            8
        } else {
            system.cpu_count * 4
        },
{
    let n = system.cpu_count * 4;
    if n < 8 {
        8
    } else {
        n as u64
    }
}

/// No GPU is detected.
pub fn determine_gpu_capacity(_system: &SystemSnapshot) -> (r: u64)
    ensures
        r == 0,
{
    0
}

} // verus!
