use orchestrator::engine::AttackError;
use orchestrator::performance::{backpressure_reason, request_admission, BackpressureReason, BackpressureSeverity};

#[test]
fn admission_waits_by_severity() {
    assert_eq!(request_admission(false, BackpressureSeverity::Critical), Ok(0));
    assert_eq!(request_admission(true, BackpressureSeverity::Low), Ok(100));
    assert_eq!(request_admission(true, BackpressureSeverity::Medium), Ok(500));
    assert_eq!(request_admission(true, BackpressureSeverity::High), Ok(1000));
    assert_eq!(
        request_admission(true, BackpressureSeverity::Critical),
        Err(AttackError::NetworkError { details: "System under critical load, requests rejected".to_string() })
    );
}

#[test]
fn reason_from_pressures() {
    assert_eq!(backpressure_reason(true, true), BackpressureReason::SystemResourceExhaustion);
    assert_eq!(backpressure_reason(true, false), BackpressureReason::MemoryPressure);
    assert_eq!(backpressure_reason(false, true), BackpressureReason::CpuOverload);
}
