use orchestrator::metrics::{traffic_totals, TrafficRecord};

#[test]
fn traffic_totals_feed_the_averages() {
    let data = vec![
        TrafficRecord { status_code: Some(200), request_size: 1024, response_size: Some(2048), processing_time_ms: 100 },
        TrafficRecord { status_code: Some(500), request_size: 512, response_size: Some(256), processing_time_ms: 200 },
    ];
    let t = traffic_totals(&data);
    assert_eq!(t.count, 2);
    assert_eq!(t.total_response_time_ms, 300); // average 150
    assert_eq!(t.error_count, 1); // error rate 0.5
    assert_eq!(t.total_bytes, 3840);
}

#[test]
fn missing_status_is_an_error() {
    let data = vec![TrafficRecord { status_code: None, request_size: 1, response_size: None, processing_time_ms: 0 }];
    let t = traffic_totals(&data);
    assert_eq!(t.error_count, 1);
    assert_eq!(t.total_bytes, 1);
    let empty = traffic_totals(&vec![]);
    assert_eq!((empty.count, empty.error_count, empty.total_bytes), (0, 0, 0));
}
