use orchestrator::resource_manager::{
    AllocationResult, ModuleType, Priority, ResourceLimits, ResourceManager, ResourceRequest,
    ResourceType, ResourceUsageStats,
};
use uuid::Uuid;

fn request(module: ModuleType, rt: ResourceType, quantity: usize, priority: Priority) -> ResourceRequest {
    ResourceRequest { id: Uuid::new_v4().as_u128(), module, resource_type: rt, quantity, priority }
}

#[test]
fn test_resource_allocation() {
    let mut manager = ResourceManager::new();

    let request = request(ModuleType::LSR, ResourceType::Browser, 1, Priority::Normal);

    match manager.request_resource(request, 0) {
        AllocationResult::Granted(allocation) => {
            assert_eq!(allocation.module, ModuleType::LSR);
            assert_eq!(allocation.quantity, 1);

            // Release the resource
            manager.release_resource(allocation.id, 0).unwrap();
        }
        _ => panic!("Resource allocation should have been granted"),
    }
}

#[test]
fn test_resource_limits() {
    let limits = ResourceLimits { max_browsers: 1, ..Default::default() };
    let mut manager = ResourceManager::with_limits(limits);

    let request1 = request(ModuleType::LSR, ResourceType::Browser, 1, Priority::Normal);
    let request2 = request(ModuleType::Nuclei, ResourceType::Browser, 1, Priority::Normal);

    // First request should succeed
    match manager.request_resource(request1, 0) {
        AllocationResult::Granted(_) => {}
        _ => panic!("First request should have been granted"),
    }

    // Second request should be denied
    match manager.request_resource(request2, 0) {
        AllocationResult::Denied(_) => {}
        _ => panic!("Second request should have been denied"),
    }
}

#[test]
fn denial_messages_name_the_resource() {
    let limits = ResourceLimits { max_recording_sessions: 0, ..Default::default() };
    let mut manager = ResourceManager::with_limits(limits);
    match manager.request_resource(request(ModuleType::LSR, ResourceType::RecordingSession, 1, Priority::Low), 0) {
        AllocationResult::Denied(msg) => assert_eq!(msg, "Insufficient recording session resources available"),
        _ => panic!("expected a denial"),
    }
    match manager.request_resource(request(ModuleType::Agent, ResourceType::HttpRequest, 1, Priority::Normal), 0) {
        AllocationResult::Denied(msg) => assert_eq!(msg, "Per-agent HTTP request limits not implemented"),
        _ => panic!("expected a denial"),
    }
    match manager.request_resource(request(ModuleType::Agent, ResourceType::Memory(64), 1, Priority::Normal), 0) {
        AllocationResult::Denied(msg) => assert_eq!(msg, "Memory limits not implemented"),
        _ => panic!("expected a denial"),
    }
}

#[test]
fn high_priority_requests_queue_and_are_served_on_release() {
    let limits = ResourceLimits { max_browsers: 1, ..Default::default() };
    let mut manager = ResourceManager::with_limits(limits);
    let first = request(ModuleType::LSR, ResourceType::Browser, 1, Priority::Normal);
    let first_id = first.id;
    assert!(matches!(manager.request_resource(first, 1), AllocationResult::Granted(_)));
    let waiting = request(ModuleType::Intruder, ResourceType::Browser, 1, Priority::High);
    let waiting_id = waiting.id;
    match manager.request_resource(waiting, 2) {
        AllocationResult::Queued(id) => assert_eq!(id, waiting_id),
        _ => panic!("a High request should be queued"),
    }
    manager.release_resource(first_id, 3).unwrap();
    // The queued request took the freed browser.
    let stats = manager.get_usage_stats();
    assert_eq!(stats.browsers_used, 1);
    assert!(manager.release_resource(waiting_id, 4).is_ok());
    assert_eq!(manager.get_usage_stats().browsers_used, 0);
}

#[test]
fn releasing_unknown_allocation_is_an_error() {
    let mut manager = ResourceManager::new();
    let id = Uuid::nil().as_u128();
    assert_eq!(
        manager.release_resource(id, 0),
        Err("Allocation 00000000-0000-0000-0000-000000000000 not found".to_string())
    );
    assert_eq!(
        manager.release_resource(0xa1a2a3a4b1b2c1c2d1d2d3d4d5d6d7d8, 0),
        Err("Allocation a1a2a3a4-b1b2-c1c2-d1d2-d3d4d5d6d7d8 not found".to_string())
    );
}

#[test]
fn request_then_release_restores_usage() {
    let mut manager = ResourceManager::new();
    let r = request(ModuleType::Nuclei, ResourceType::NucleiScan, 5, Priority::Normal);
    let id = r.id;
    assert!(matches!(manager.request_resource(r, 10), AllocationResult::Granted(_)));
    assert_eq!(manager.get_usage_stats().nuclei_scans_used, 5);
    // The pool is now empty: one more scan is denied.
    let more = request(ModuleType::Nuclei, ResourceType::NucleiScan, 1, Priority::Low);
    assert!(matches!(manager.request_resource(more, 11), AllocationResult::Denied(_)));
    manager.release_resource(id, 12).unwrap();
    assert_eq!(manager.get_usage_stats().nuclei_scans_used, 0);
    let again = request(ModuleType::Nuclei, ResourceType::NucleiScan, 5, Priority::Low);
    assert!(matches!(manager.request_resource(again, 13), AllocationResult::Granted(_)));
}

#[test]
fn high_load_thresholds() {
    let limits = ResourceLimits::default();
    let mut stats = ResourceUsageStats {
        browsers_used: 8,
        recording_sessions_used: 0,
        nuclei_scans_used: 0,
        intruder_attacks_used: 0,
        http_requests_used: 0,
        memory_used_mb: 0,
        limits,
    };
    assert!(!stats.is_high_load()); // exactly 80% of browsers is not above 80%
    stats.browsers_used = 9;
    assert!(stats.is_high_load());
    stats.browsers_used = 0;
    stats.recording_sessions_used = 2;
    assert!(!stats.is_high_load()); // 2 of 3 recording sessions is under 80%
    stats.recording_sessions_used = 3;
    assert!(stats.is_high_load()); // all 3 recording sessions in use
    stats.recording_sessions_used = 0;
    stats.nuclei_scans_used = 4;
    assert!(!stats.is_high_load()); // exactly 80% of scans is not above 80%
    stats.nuclei_scans_used = 5;
    assert!(stats.is_high_load());
}
