//! Attack-engine vocabulary used by the orchestrator: agents, attack modes,
//! distribution strategies, HTTP request/response data, and attack errors.

use vstd::prelude::*;

verus! {

/// Availability of an attack agent.
#[derive(Clone, Copy, Debug, PartialEq, Eq, Structural)]
pub enum AgentStatus {
    Online,
    Offline,
}

/// An attack agent as the distributor and validators see it.
#[derive(Debug)]
pub struct AgentInfo {
    pub id: String,
    pub hostname: String,
    pub status: AgentStatus,
    pub response_time_ms: Option<u64>,
}

impl AgentInfo {
    /// A copy of this agent record.
    pub fn duplicate(&self) -> (r: AgentInfo)
        ensures
            r == *self,
    {
        AgentInfo {
            id: self.id.clone(),
            hostname: self.hostname.clone(),
            status: self.status,
            response_time_ms: self.response_time_ms,
        }
    }
}

/// How payloads are combined with positions.
#[derive(Clone, Copy, Debug, PartialEq, Eq, Structural)]
pub enum AttackMode {
    /// One position, every payload in turn.
    Sniper,
    /// The same payload in every position.
    BatteringRam,
    /// Positions advance together.
    Pitchfork,
    /// Every combination of payloads.
    ClusterBomb,
}

/// How payloads are spread over agents.
#[derive(Clone, Copy, Debug, PartialEq, Eq, Structural)]
pub enum DistributionStrategy {
    RoundRobin,
    Batch { batch_size: usize },
    LoadBalanced,
}

/// HTTP headers as name/value pairs; a lookup takes the first pair with the name.
#[derive(Debug)]
pub struct HttpHeaders {
    pub headers: Vec<(String, String)>,
}

/// An HTTP request.
#[derive(Debug)]
pub struct HttpRequestData {
    pub method: String,
    pub url: String,
    pub headers: Option<HttpHeaders>,
    pub body: Vec<u8>,
}

/// An HTTP response.
#[derive(Debug)]
pub struct HttpResponseData {
    pub status_code: i32,
    pub headers: Option<HttpHeaders>,
    pub body: Vec<u8>,
}

fn copy_pairs(v: &Vec<(String, String)>) -> (r: Vec<(String, String)>)
    ensures
        r@ == v@,
{
    let mut r: Vec<(String, String)> = Vec::new();
    let mut i: usize = 0;
    while i < v.len()
        invariant
            i <= v@.len(),
            r@ == v@.take(i as int),
        decreases v.len() - i,
    {
        let p = (v[i].0.clone(), v[i].1.clone());
        r.push(p);
        proof {
            assert(v@.take(i + 1) =~= v@.take(i as int).push(v@[i as int]));
        }
        i = i + 1;
    }
    proof {
        assert(v@.take(v@.len() as int) =~= v@);
    }
    r
}

fn copy_bytes(v: &Vec<u8>) -> (r: Vec<u8>)
    ensures
        r@ == v@,
{
    let r = v.clone();
    proof {
        assert(r@ =~= v@);
    }
    r
}

/// Two optional header lists hold the same pairs.
pub open spec fn same_headers(a: Option<HttpHeaders>, b: Option<HttpHeaders>) -> bool {
    match (a, b) {
        (Some(x), Some(y)) => x.headers@ == y.headers@,
        (None, None) => true,
        _ => false,
    }
}

/// Two requests are equal field by field.
pub open spec fn same_request(a: HttpRequestData, b: HttpRequestData) -> bool {
    a.method == b.method && a.url == b.url && same_headers(a.headers, b.headers) && a.body@ == b.body@
}

/// Two responses are equal field by field.
pub open spec fn same_response(a: HttpResponseData, b: HttpResponseData) -> bool {
    a.status_code == b.status_code && same_headers(a.headers, b.headers) && a.body@ == b.body@
}

fn copy_headers(h: &Option<HttpHeaders>) -> (r: Option<HttpHeaders>)
    ensures
        same_headers(r, *h),
{
    match h {
        Some(h) => Some(HttpHeaders { headers: copy_pairs(&h.headers) }),
        None => None,
    }
}

impl HttpRequestData {
    /// A copy of this request.
    pub fn duplicate(&self) -> (r: HttpRequestData)
        ensures
            same_request(r, *self),
    {
        HttpRequestData {
            method: self.method.clone(),
            url: self.url.clone(),
            headers: copy_headers(&self.headers),
            body: copy_bytes(&self.body),
        }
    }
}

impl HttpResponseData {
    /// A copy of this response.
    pub fn duplicate(&self) -> (r: HttpResponseData)
        ensures
            same_response(r, *self),
    {
        HttpResponseData { status_code: self.status_code, headers: copy_headers(&self.headers), body: copy_bytes(&self.body) }
    }
}

/// Errors of attack configuration and execution.
#[derive(Debug, PartialEq, Eq)]
pub enum AttackError {
    InvalidPayloadConfig { reason: String },
    InvalidAttackConfig { reason: String },
    AgentUnavailable { agent_id: String },
    NetworkError { details: String },
    DatabaseError { operation: String },
    SessionExpired { session_id: String },
    ExecutionFailed { error: String },
    Timeout { operation: String },
    ResourceExhaustion { resource: String },
    RateLimitExceeded { retry_after_ms: Option<u64> },
}

/// Where the payloads of a payload set come from.
#[derive(Debug)]
pub enum PayloadConfig {
    /// Lines of a word list file.
    Wordlist { file_path: String, encoding: String },
    /// Numbers from `start` to `end` by `step`, rendered with `format`.
    NumberRange { start: i64, end: i64, step: i64, format: String },
    /// An explicit list of values.
    Custom { values: Vec<String> },
}

/// A payload configuration with its texts as character sequences.
pub enum PayloadConfigView {
    Wordlist { file_path: Seq<char>, encoding: Seq<char> },
    NumberRange { start: i64, end: i64, step: i64, format: Seq<char> },
    Custom { values: Seq<Seq<char>> },
}

impl View for PayloadConfig {
    type V = PayloadConfigView;

    open spec fn view(&self) -> PayloadConfigView {
        match self {
            PayloadConfig::Wordlist { file_path, encoding } => PayloadConfigView::Wordlist {
                file_path: file_path@,
                encoding: encoding@,
            },
            PayloadConfig::NumberRange { start, end, step, format } => PayloadConfigView::NumberRange {
                start: *start,
                end: *end,
                step: *step,
                format: format@,
            },
            PayloadConfig::Custom { values } => PayloadConfigView::Custom { values: values@.map_values(|v: String| v@) },
        }
    }
}

} // verus!
