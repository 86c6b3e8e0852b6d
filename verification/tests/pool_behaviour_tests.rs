use zako_core::resource::heuristics::{
    determine_disk_io_capacity, determine_local_cas_path, determine_memory_cache_size_for_cas,
    determine_network_capacity, determine_v8_workers_config, determine_v8_workers_count,
    SystemSnapshot,
};
use zako_core::resource::pool::RawResourcePool;
use zako_core::resource::{ResourceRange, ResourceRangeRequest, ResourceRequest, ResourceType};
use zako_core::worker::worker_pool::{PoolConfig, WorkerPoolError};

fn machine(cpu_count: usize, total_memory: u64) -> SystemSnapshot {
    SystemSnapshot { total_memory, cpu_count }
}

#[test]
fn growing_capacity_keeps_what_is_in_use() {
    let mut pool = RawResourcePool::new(4, 8, 1, 1024, 16, Vec::new());
    let mut queue: Vec<ResourceRequest<u64>> = Vec::new();
    let first = ResourceRequest::cpu(3u64);
    let held = first.duplicate();
    assert!(pool.occupy(first, &mut queue).0);
    // 8 is more than the capacity: it grows to 8, and 1 + 4 are left, not enough.
    let (taken, granted) = pool.occupy(ResourceRequest::cpu(8u64), &mut queue);
    assert!(!taken);
    assert_eq!(granted, 0);
    assert_eq!(queue.len(), 1);
    assert_eq!(pool.capacity_of(&ResourceType::Processor), Some(8));
    assert_eq!(pool.rest_of(&ResourceType::Processor), Some(5));
    // Releasing the first grants the queued request.
    assert_eq!(pool.release_inner(&held, &mut queue), 1);
    assert!(queue.is_empty());
    assert_eq!(pool.rest_of(&ResourceType::Processor), Some(0));
}

#[test]
fn notify_stops_at_the_first_blocked_request() {
    let mut pool = RawResourcePool::new(4, 8, 1, 1024, 16, Vec::new());
    let mut queue = vec![ResourceRequest::cpu(5u64), ResourceRequest::cpu(1u64)];
    assert_eq!(pool.notify(&mut queue), 0);
    assert_eq!(queue.len(), 2);
    assert_eq!(pool.rest_of(&ResourceType::Processor), Some(4));

    let mut queue = vec![ResourceRequest::cpu(1u64), ResourceRequest::cpu(2u64), ResourceRequest::cpu(5u64)];
    assert_eq!(pool.notify(&mut queue), 2);
    assert_eq!(queue.len(), 1);
    assert_eq!(queue[0].get(&ResourceType::Processor), Some(5));
    assert_eq!(pool.rest_of(&ResourceType::Processor), Some(1));
}

#[test]
fn try_occupy_takes_all_or_nothing() {
    let mut pool = RawResourcePool::new(4, 8, 1, 1024, 16, Vec::new());
    let request = ResourceRequest::cpu(2u64).request_memory(2048);
    assert!(!pool.try_occupy_inner(&request));
    assert_eq!(pool.rest_of(&ResourceType::Processor), Some(4));
    assert_eq!(pool.rest_of(&ResourceType::Memory), Some(1024));
    let request = ResourceRequest::cpu(2u64).request_memory(1000);
    assert!(pool.try_occupy_inner(&request));
    assert_eq!(pool.rest_of(&ResourceType::Processor), Some(2));
    assert_eq!(pool.rest_of(&ResourceType::Memory), Some(24));
}

#[test]
fn named_kinds_get_their_capacity() {
    let pool = RawResourcePool::new(4, 8, 1, 1024, 16, vec![("licence".to_string(), 3)]);
    assert_eq!(pool.capacity_of(&ResourceType::Other("licence".to_string())), Some(3));
    assert_eq!(pool.rest_of(&ResourceType::Other("licence".to_string())), Some(3));
    assert_eq!(pool.capacity_of(&ResourceType::GPU), Some(1));
    assert_eq!(pool.capacity_of(&ResourceType::Network), Some(16));
    assert_eq!(pool.capacity_of(&ResourceType::Other("other".to_string())), None);
}

#[test]
fn range_that_cannot_be_granted_queues_its_minimums() {
    let mut pool = RawResourcePool::new(4, 8, 1, 1024, 16, Vec::new());
    let mut queue: Vec<ResourceRequest<u64>> = Vec::new();
    assert!(pool.occupy(ResourceRequest::cpu(3u64), &mut queue).0);
    let range = ResourceRangeRequest::empty()
        .with(ResourceType::Processor, ResourceRange { minimum: 2, maximum: 4 });
    match pool.occupy_range(&range, &mut queue) {
        zako_core::resource::pool::RangeOutcome::Queued => {}
        _ => panic!("expected the range to wait"),
    }
    assert_eq!(queue.len(), 1);
    assert_eq!(queue[0].get(&ResourceType::Processor), Some(2));
}

#[test]
fn resume_range_takes_what_is_left() {
    let mut pool = RawResourcePool::new(10, 8, 1, 1024, 16, Vec::new());
    let range = ResourceRangeRequest::empty()
        .with(ResourceType::Processor, ResourceRange { minimum: 2, maximum: 6 });
    // The minimum (2) was granted from the queue.
    assert!(pool.try_occupy_inner(&range.minimums()));
    let occupied = pool.resume_range(&range);
    assert_eq!(occupied.get(&ResourceType::Processor), Some(6));
    assert_eq!(pool.rest_of(&ResourceType::Processor), Some(4));
}

#[test]
fn heuristics_follow_the_machine() {
    assert_eq!(
        determine_memory_cache_size_for_cas(&machine(8, 16 * 1024 * 1024 * 1024)),
        16 * 1024 * 1024 * 1024 / 10
    );
    assert_eq!(determine_memory_cache_size_for_cas(&machine(8, 1024 * 1024)), 4 * 1024 * 1024);
    assert_eq!(
        determine_memory_cache_size_for_cas(&machine(8, u64::MAX)),
        4 * 1024 * 1024 * 1024
    );
    assert_eq!(determine_v8_workers_count(&machine(8, 0)), 1);
    assert_eq!(determine_v8_workers_count(&machine(1, 0)), 0);
    assert_eq!(determine_disk_io_capacity(&machine(1, 0)), 4);
    assert_eq!(determine_disk_io_capacity(&machine(8, 0)), 16);
    assert_eq!(determine_network_capacity(&machine(1, 0)), 8);
    assert_eq!(determine_network_capacity(&machine(8, 0)), 32);
    assert_eq!(
        determine_v8_workers_config(&machine(8, 0)),
        PoolConfig { max_workers: 1, min_workers: 1, idle_timeout: 60 }
    );
    assert_eq!(determine_local_cas_path(Some("/home/u/.cache")), "/home/u/.cache/zako/cas");
    assert_eq!(determine_local_cas_path(None), "~//zako/cas");
}

#[test]
fn pool_spawns_a_worker_only_when_needed() {
    let config = PoolConfig { max_workers: 2, min_workers: 1, idle_timeout: 60 };
    assert!(config.should_spawn_worker(0, true));
    assert!(config.should_spawn_worker(1, false));
    assert!(!config.should_spawn_worker(1, true));
    assert!(!config.should_spawn_worker(2, false));
    assert_eq!(config.queue_bound(), 4);
    assert_eq!(WorkerPoolError::NotStarted.message(), "Worker pool not started");
}
