//! Kinds of metrics the orchestrator tracks, and the totals that traffic
//! metrics are computed from.

use vstd::prelude::*;

verus! {

/// A kind of metric.
#[derive(Clone, Copy, Debug, PartialEq, Eq, Structural)]
pub enum MetricType {
    RequestsPerSecond,
    ResponseTime,
    ErrorRate,
    ActiveConnections,
    MemoryUsage,
    CpuUsage,
    DataThroughput,
}

/// One proxied request as the traffic metrics read it.
#[derive(Debug)]
pub struct TrafficRecord {
    pub status_code: Option<u16>,
    pub request_size: u64,
    pub response_size: Option<u64>,
    pub processing_time_ms: u64,
}

/// Sums over a list of requests. The average response time is the total time
/// divided by the count, the error rate the errors divided by the count, and
/// the data volume the total bytes.
#[derive(Debug)]
pub struct TrafficTotals {
    pub count: usize,
    pub total_response_time_ms: u64,
    pub error_count: usize,
    pub total_bytes: u64,
}

/// A request counts as an error: it got no status, or one of 400 or more.
pub open spec fn is_error(r: TrafficRecord) -> bool {
    match r.status_code {
        Some(c) => c >= 400,
        None => true,
    }
}

/// Bytes a request moved: its request plus its response (none if unknown).
pub open spec fn record_bytes(r: TrafficRecord) -> nat {
    r.request_size as nat + match r.response_size {
        Some(s) => s as nat,
        None => 0nat,
    }
}

/// Total processing time of the requests.
pub open spec fn time_sum(d: Seq<TrafficRecord>) -> nat
    decreases d.len(),
{
    if d.len() == 0 { 0 } else { time_sum(d.drop_last()) + d.last().processing_time_ms as nat }
}

/// Number of failed requests.
pub open spec fn error_total(d: Seq<TrafficRecord>) -> nat
    decreases d.len(),
{
    if d.len() == 0 { 0 } else { error_total(d.drop_last()) + if is_error(d.last()) { 1nat } else { 0nat } }
}

/// Total bytes moved.
pub open spec fn byte_sum(d: Seq<TrafficRecord>) -> nat
    decreases d.len(),
{
    if d.len() == 0 { 0 } else { byte_sum(d.drop_last()) + record_bytes(d.last()) }
}

proof fn lemma_prefix_sums(d: Seq<TrafficRecord>, k: int)
    requires
        0 <= k <= d.len(),
    ensures
        time_sum(d.take(k)) <= time_sum(d),
        byte_sum(d.take(k)) <= byte_sum(d),
    decreases d.len() - k,
{
    if k < d.len() {
        lemma_prefix_sums(d, k + 1);
        assert(d.take(k + 1).drop_last() =~= d.take(k));
    } else {
        assert(d.take(k) =~= d);
    }
}

proof fn lemma_error_bound(d: Seq<TrafficRecord>)
    ensures
        error_total(d) <= d.len(),
    decreases d.len(),
{
    if d.len() > 0 {
        lemma_error_bound(d.drop_last());
    }
}

/// Sums the requests' processing times, failures and bytes.
pub fn traffic_totals(data: &Vec<TrafficRecord>) -> (r: TrafficTotals)
    requires
        time_sum(data@) <= u64::MAX,
        byte_sum(data@) <= u64::MAX,
    ensures
        r.count == data@.len(),
        r.total_response_time_ms == time_sum(data@),
        r.error_count == error_total(data@),
        r.total_bytes == byte_sum(data@),
{
    let mut time: u64 = 0;
    let mut errors: usize = 0;
    let mut bytes: u64 = 0;
    let mut i: usize = 0;
    while i < data.len()
        invariant
            i <= data@.len(),
            time_sum(data@) <= u64::MAX,
            byte_sum(data@) <= u64::MAX,
            time == time_sum(data@.take(i as int)),
            errors == error_total(data@.take(i as int)),
            bytes == byte_sum(data@.take(i as int)),
        decreases data.len() - i,
    {
        proof {
            assert(data@.take(i + 1).drop_last() =~= data@.take(i as int));
            lemma_prefix_sums(data@, i + 1);
            lemma_error_bound(data@.take(i as int));
        }
        let rec = &data[i];
        time = time + rec.processing_time_ms;
        let resp: u64 = match rec.response_size {
            Some(s) => s,
            None => 0,
        };
        bytes = bytes + rec.request_size + resp;
        let failed = match rec.status_code {
            Some(c) => c >= 400,
            None => true,
        };
        if failed {
            errors = errors + 1;
        }
        i = i + 1;
    }
    proof {
        assert(data@.take(data@.len() as int) =~= data@);
    }
    TrafficTotals { count: data.len(), total_response_time_ms: time, error_count: errors, total_bytes: bytes }
}

} // verus!
