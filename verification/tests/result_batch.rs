use orchestrator::database::intruder::{IntruderResult, ResultBatch, RESULT_BATCH_SIZE};

fn result(id: &str) -> IntruderResult {
    IntruderResult {
        id: id.to_string(),
        attack_id: "a".to_string(),
        request_data: "{}".to_string(),
        response_data: None,
        agent_id: "g".to_string(),
        payload_values: "[]".to_string(),
        executed_at: 0,
        duration_ms: None,
        status_code: None,
        response_length: None,
        is_highlighted: false,
    }
}

#[test]
fn buffer_asks_for_a_flush_when_full() {
    let mut b = ResultBatch::new();
    assert_eq!(b.batch_size, RESULT_BATCH_SIZE);
    for i in 0..RESULT_BATCH_SIZE - 1 {
        assert!(!b.add_result(result(&i.to_string())));
    }
    assert!(b.add_result(result("last")));
    let taken = b.drain();
    assert_eq!(taken.len(), RESULT_BATCH_SIZE);
    assert_eq!(taken[0].id, "0");
    assert_eq!(taken[RESULT_BATCH_SIZE - 1].id, "last");
    assert!(b.pending.is_empty());
    assert!(b.drain().is_empty());
}
