use zako_core::resource::heuristics::SystemSnapshot;
use zako_core::resource::pool::{RangeOutcome, RawResourcePool};
use zako_core::resource::{
    DetectableResourceValue, ResourceRange, ResourceRangeRequest, ResourceRequest, ResourceType,
};

fn snapshot() -> SystemSnapshot {
    SystemSnapshot { total_memory: 16 * 1024 * 1024 * 1024, cpu_count: 8 }
}

#[test]
fn test_resource_pool_new() {
    let pool = RawResourcePool::new(4, 8, 1, 1024, 16, Vec::new());
    assert_eq!(pool.get_cpu_count(), 4);
}

#[test]
fn test_resource_pool_new_with_other() {
    let other = vec![("custom".to_string(), 10)];
    let pool = RawResourcePool::new(4, 8, 1, 1024, 16, other);
    assert_eq!(pool.get_cpu_count(), 4);
}

#[test]
fn test_resource_pool_new_with_heuristics() {
    let pool = RawResourcePool::new_with_heuristics(
        &snapshot(),
        DetectableResourceValue::Heuristics,
        DetectableResourceValue::Heuristics,
        DetectableResourceValue::Heuristics,
        DetectableResourceValue::Heuristics,
        DetectableResourceValue::Heuristics,
        Vec::new(),
    );
    // CPU count should be at least 1
    assert!(pool.get_cpu_count() >= 1);
}

#[test]
fn test_resource_pool_new_with_mixed_values() {
    let pool = RawResourcePool::new_with_heuristics(
        &snapshot(),
        DetectableResourceValue::Value(8),
        DetectableResourceValue::Heuristics,
        DetectableResourceValue::Value(2),
        DetectableResourceValue::Heuristics,
        DetectableResourceValue::Heuristics,
        Vec::new(),
    );
    assert_eq!(pool.get_cpu_count(), 8);
}

#[test]
fn test_resource_request_cpu() {
    let request = ResourceRequest::cpu(4u64);
    assert_eq!(request.get(&ResourceType::Processor), Some(4));
}

#[test]
fn test_resource_request_chain() {
    let request = ResourceRequest::cpu(4u64).request_memory(1024).request_fs_io(2);
    assert_eq!(request.get(&ResourceType::Processor), Some(4));
    assert_eq!(request.get(&ResourceType::Memory), Some(1024));
    assert_eq!(request.get(&ResourceType::DiskIO), Some(2));
}

#[test]
fn test_resource_range() {
    let range = ResourceRange { minimum: 1, maximum: 10 };
    assert_eq!(range.minimum, 1);
    assert_eq!(range.maximum, 10);
}

#[test]
fn test_occupy_and_release() {
    let mut pool = RawResourcePool::new(4, 8, 1, 1024, 16, Vec::new());
    let mut queue: Vec<ResourceRequest<u64>> = Vec::new();

    let request = ResourceRequest::cpu(2u64);
    let occupied = request.duplicate();
    let (taken, _) = pool.occupy(request, &mut queue);
    assert!(taken);

    // Check that resources are occupied
    assert_eq!(pool.rest_of(&ResourceType::Processor), Some(2));

    // Release the resources
    pool.release_inner(&occupied, &mut queue);

    // Check that resources are released
    assert_eq!(pool.rest_of(&ResourceType::Processor), Some(4));
}

#[test]
fn test_occupy_exceeds_capacity_expands() {
    let mut pool = RawResourcePool::new(4, 8, 1, 1024, 16, Vec::new());
    let mut queue: Vec<ResourceRequest<u64>> = Vec::new();

    // Request more than initial capacity
    let (taken, _) = pool.occupy(ResourceRequest::cpu(8u64), &mut queue);
    assert!(taken);

    // Capacity should have expanded
    assert_eq!(pool.capacity_of(&ResourceType::Processor), Some(8));
}

fn cpu_range(minimum: u64, maximum: u64) -> ResourceRangeRequest {
    ResourceRangeRequest::empty().with(ResourceType::Processor, ResourceRange { minimum, maximum })
}

#[test]
fn test_occupy_range_gets_maximum_when_available() {
    let mut pool = RawResourcePool::new(10, 8, 1, 1024, 16, Vec::new());
    let mut queue: Vec<ResourceRequest<u64>> = Vec::new();

    match pool.occupy_range(&cpu_range(2, 8), &mut queue) {
        // Should have gotten maximum (8) since 10 are available
        RangeOutcome::Granted(occupied, _) => {
            assert_eq!(occupied.get(&ResourceType::Processor), Some(8))
        }
        RangeOutcome::Queued => panic!("expected the range to be granted"),
    }
}

#[test]
fn test_occupy_range_gets_available_when_less_than_max() {
    let mut pool = RawResourcePool::new(5, 8, 1, 1024, 16, Vec::new());
    let mut queue: Vec<ResourceRequest<u64>> = Vec::new();

    match pool.occupy_range(&cpu_range(2, 10), &mut queue) {
        // Should have gotten available (5) since max (10) exceeds capacity
        RangeOutcome::Granted(occupied, _) => {
            assert_eq!(occupied.get(&ResourceType::Processor), Some(5))
        }
        RangeOutcome::Queued => panic!("expected the range to be granted"),
    }
}

#[test]
fn test_multiple_occupations() {
    let mut pool = RawResourcePool::new(10, 8, 1, 1024, 16, Vec::new());
    let mut queue: Vec<ResourceRequest<u64>> = Vec::new();

    let request1 = ResourceRequest::cpu(3u64);
    let request2 = ResourceRequest::cpu(4u64);
    let held1 = request1.duplicate();
    let held2 = request2.duplicate();

    assert!(pool.occupy(request1, &mut queue).0);
    assert!(pool.occupy(request2, &mut queue).0);
    assert_eq!(pool.rest_of(&ResourceType::Processor), Some(3)); // 10 - 3 - 4

    pool.release_inner(&held1, &mut queue);
    assert_eq!(pool.rest_of(&ResourceType::Processor), Some(6)); // 10 - 4

    pool.release_inner(&held2, &mut queue);
    assert_eq!(pool.rest_of(&ResourceType::Processor), Some(10));
}

#[test]
fn test_resource_type_other() {
    let resource_type = ResourceType::Other("custom_resource".to_string());
    assert_eq!(resource_type, ResourceType::Other("custom_resource".to_string()));
}

#[test]
fn test_resource_request_other() {
    let request = ResourceRequest::other("custom".to_string(), 5u64);
    assert_eq!(request.get(&ResourceType::Other("custom".to_string())), Some(5));
}
