//! The HTTP API's own data: the welcome page and its endpoint list, traffic
//! queries, and agent registration messages.

use vstd::prelude::*;
use crate::text::owned;

verus! {

/// The welcome page.
#[derive(Debug)]
pub struct WelcomeResponse {
    pub service: String,
    pub version: String,
    pub status: String,
    pub endpoints: Vec<EndpointInfo>,
}

/// One endpoint of the API.
#[derive(Debug)]
pub struct EndpointInfo {
    pub path: String,
    pub method: String,
    pub description: String,
}

/// Query parameters of the traffic listing.
#[derive(Debug)]
pub struct TrafficQuery {
    pub agent_id: Option<String>,
    pub limit: Option<i64>,
}

/// How many traffic records a query asks for (100 unless given).
pub fn traffic_limit(q: &TrafficQuery) -> (r: i64)
    ensures
        r == (match q.limit {
            Some(l) => l,
            None => 100,
        }),
{
    match q.limit {
        Some(l) => l,
        None => 100,
    }
}

/// An agent registration through the HTTP API.
#[derive(Debug)]
pub struct RegisterAgentRequest {
    pub agent_id: String,
    pub address: String,
    pub port: u16,
    pub version: String,
    pub capabilities: Vec<String>,
}

/// Answer to an HTTP registration.
#[derive(Debug)]
pub struct RegisterAgentResponse {
    pub success: bool,
    pub message: String,
    pub agent_id: String,
}

/// The endpoints the welcome page lists, as (path, method, description).
pub open spec fn listed_endpoints() -> Seq<(Seq<char>, Seq<char>, Seq<char>)> {
    seq![
        ("/"@, "GET"@, "This welcome page with API documentation"@),
        ("/health"@, "GET"@, "Basic health check"@),
        ("/health/detailed"@, "GET"@, "Detailed system health status"@),
        ("/agents"@, "GET"@, "List all registered proxy agents"@),
        ("/agents"@, "POST"@, "Register a new proxy agent"@),
        ("/agents/{agent_id}"@, "GET"@, "Get information about a specific agent"@),
        ("/traffic"@, "GET"@, "Get recent traffic data (query params: agent_id, limit)"@),
        ("/traffic/{agent_id}"@, "GET"@, "Get traffic data for a specific agent"@),
        ("/metrics"@, "GET"@, "Get system-wide metrics"@),
        ("/metrics/{agent_id}"@, "GET"@, "Get metrics for a specific agent"@),
    ]
}

fn endpoint(path: &str, method: &str, description: &str) -> (r: EndpointInfo)
    ensures
        r.path@ == path@ && r.method@ == method@ && r.description@ == description@,
{
    EndpointInfo { path: owned(path), method: owned(method), description: owned(description) }
}

/// The welcome page: the service's name, version and status, and every endpoint.
pub fn welcome_response() -> (r: WelcomeResponse)
    ensures
        r.service@ == "Distributed MITM Proxxy Orchestrator"@,
        r.version@ == "0.1.1"@,
        r.status@ == "running"@,
        r.endpoints@.len() == listed_endpoints().len(),
        forall|i: int|
            0 <= i < r.endpoints@.len() ==> (#[trigger] r.endpoints@[i]).path@ == listed_endpoints()[i].0
                && r.endpoints@[i].method@ == listed_endpoints()[i].1 && r.endpoints@[i].description@
                == listed_endpoints()[i].2,
{
    let endpoints = vec![
        endpoint("/", "GET", "This welcome page with API documentation"),
        endpoint("/health", "GET", "Basic health check"),
        endpoint("/health/detailed", "GET", "Detailed system health status"),
        endpoint("/agents", "GET", "List all registered proxy agents"),
        endpoint("/agents", "POST", "Register a new proxy agent"),
        endpoint("/agents/{agent_id}", "GET", "Get information about a specific agent"),
        endpoint("/traffic", "GET", "Get recent traffic data (query params: agent_id, limit)"),
        endpoint("/traffic/{agent_id}", "GET", "Get traffic data for a specific agent"),
        endpoint("/metrics", "GET", "Get system-wide metrics"),
        endpoint("/metrics/{agent_id}", "GET", "Get metrics for a specific agent"),
    ];
    WelcomeResponse {
        service: owned("Distributed MITM Proxxy Orchestrator"),
        version: owned("0.1.1"),
        status: owned("running"),
        endpoints,
    }
}

} // verus!
