//! Repeater support: request template checks, agent availability and health
//! for single requests, error explanations, and execution statistics.

use vstd::prelude::*;
use crate::engine::{AttackError, HttpRequestData, HttpResponseData};
use crate::text::{append_str, chars_has_prefix, chars_of, is_prefix, nat_text, owned, str_eq, texts, u64_text};

verus! {

/// Validation status of a repeater tab.
#[derive(Debug)]
pub enum ValidationStatus {
    Valid,
    InvalidRequest { reason: String },
    InvalidAgent { reason: String },
    Unknown,
}

/// How a validation status is shown: `Valid`, `Unknown`, or the kind of
/// problem followed by `: ` and the reason.
pub open spec fn validation_status_text(v: ValidationStatus) -> Seq<char> {
    match v {
        ValidationStatus::Valid => "Valid"@,
        ValidationStatus::InvalidRequest { reason } => "InvalidRequest: "@ + reason@,
        ValidationStatus::InvalidAgent { reason } => "InvalidAgent: "@ + reason@,
        ValidationStatus::Unknown => "Unknown"@,
    }
}

/// Shows a validation status (see `validation_status_text`).
pub fn validation_status_string(v: &ValidationStatus) -> (r: String)
    ensures
        r@ == validation_status_text(*v),
{
    match v {
        ValidationStatus::Valid => owned("Valid"),
        ValidationStatus::InvalidRequest { reason } => {
            let mut s = owned("InvalidRequest: ");
            append_str(&mut s, reason.as_str());
            s
        },
        ValidationStatus::InvalidAgent { reason } => {
            let mut s = owned("InvalidAgent: ");
            append_str(&mut s, reason.as_str());
            s
        },
        ValidationStatus::Unknown => owned("Unknown"),
    }
}

/// A repeater tab with its validation status; times are milliseconds since the epoch.
#[derive(Debug)]
pub struct RepeaterTabConfig {
    pub id: String,
    pub name: String,
    pub request_template: HttpRequestData,
    pub target_agent_id: Option<String>,
    pub created_at: i64,
    pub updated_at: i64,
    pub is_active: bool,
    pub validation_status: ValidationStatus,
}

/// The outcome of one repeater request; the time is milliseconds since the epoch.
#[derive(Debug)]
pub struct RepeaterExecutionResponse {
    pub execution_id: String,
    pub tab_id: String,
    pub request_data: HttpRequestData,
    pub response_data: Option<HttpResponseData>,
    pub agent_id: String,
    pub duration_ms: Option<u64>,
    pub status_code: Option<i32>,
    pub executed_at: i64,
    pub error: Option<String>,
}

/// Health of an agent for repeater use.
#[derive(Clone, Copy, Debug, PartialEq, Eq, Structural)]
pub enum HealthStatus {
    Healthy,
    Degraded,
    Unhealthy,
}

/// An explanation of an error for the user.
#[derive(Debug)]
pub struct ErrorDetails {
    pub error_type: String,
    pub message: String,
    pub remediation: Vec<String>,
    pub is_retryable: bool,
}

/// The HTTP methods a repeater request may use.
pub open spec fn valid_method(m: Seq<char>) -> bool {
    m == "GET"@ || m == "POST"@ || m == "PUT"@ || m == "DELETE"@ || m == "PATCH"@ || m == "HEAD"@ || m == "OPTIONS"@
}

/// Checks a request before it is sent: a non-empty `http://` or `https://` URL
/// and a standard method.
pub fn validate_request_template(request: &HttpRequestData) -> (r: Result<(), AttackError>)
    ensures
        request.url@.len() == 0 ==> (r matches Err(AttackError::InvalidPayloadConfig { reason })
            && reason@ == "Request URL cannot be empty"@),
        request.url@.len() > 0 && !is_prefix("http://"@, request.url@) && !is_prefix("https://"@, request.url@) ==> (
        r matches Err(AttackError::InvalidPayloadConfig { reason })
            && reason@ == "Request URL must start with http:// or https://"@),
        request.url@.len() > 0 && (is_prefix("http://"@, request.url@) || is_prefix("https://"@, request.url@))
            && !valid_method(request.method@) ==> (r matches Err(AttackError::InvalidPayloadConfig { reason })
            && reason@ == "Invalid HTTP method: "@ + request.method@),
        r is Ok <==> (request.url@.len() > 0 && (is_prefix("http://"@, request.url@) || is_prefix("https://"@, request.url@))
            && valid_method(request.method@)),
{
    if request.url.as_str().is_empty() {
        return Err(AttackError::InvalidPayloadConfig { reason: owned("Request URL cannot be empty") });
    }
    let u = chars_of(request.url.as_str());
    if !chars_has_prefix(u.as_slice(), chars_of("http://").as_slice()) && !chars_has_prefix(
        u.as_slice(),
        chars_of("https://").as_slice(),
    ) {
        return Err(AttackError::InvalidPayloadConfig { reason: owned("Request URL must start with http:// or https://") });
    }
    let m = request.method.as_str();
    if !(str_eq(m, "GET") || str_eq(m, "POST") || str_eq(m, "PUT") || str_eq(m, "DELETE") || str_eq(m, "PATCH")
        || str_eq(m, "HEAD") || str_eq(m, "OPTIONS")) {
        let mut s = owned("Invalid HTTP method: ");
        append_str(&mut s, m);
        return Err(AttackError::InvalidPayloadConfig { reason: s });
    }
    Ok(())
}

/// `d / q` rounded toward zero, as integer division does.
pub open spec fn trunc_div(d: int, q: int) -> int {
    if d >= 0 { d / q } else { -((-d) / q) }
}

/// Whole seconds between two instants given in milliseconds (rounded toward zero).
pub fn whole_seconds_between(earlier_ms: i64, now_ms: i64) -> (r: i64)
    ensures
        r == trunc_div(now_ms - earlier_ms, 1000),
{
    let d: i128 = now_ms as i128 - earlier_ms as i128;
    let q: i128 = if d >= 0 {
        d / 1000
    } else {
        -((-d) / 1000)
    };
    proof {
        assert(-18446744073709552 <= q <= 18446744073709552);
    }
    q as i64
}

/// The repeater health of an agent: healthy when online with a heartbeat at most
/// a minute old, degraded when online with one at most five minutes old,
/// unhealthy otherwise.
pub open spec fn repeater_health(status: Seq<char>, age_seconds: int) -> HealthStatus {
    if status == "Online"@ && age_seconds <= 60 {
        HealthStatus::Healthy
    } else if status == "Online"@ && age_seconds <= 300 {
        HealthStatus::Degraded
    } else {
        HealthStatus::Unhealthy
    }
}

/// Classifies an agent's health from its status and heartbeat age.
pub fn classify_agent_health(status: &str, age_seconds: i64) -> (r: HealthStatus)
    ensures
        r == repeater_health(status@, age_seconds as int),
{
    let online = str_eq(status, "Online");
    if online && age_seconds <= 60 {
        HealthStatus::Healthy
    } else if online && age_seconds <= 300 {
        HealthStatus::Degraded
    } else {
        HealthStatus::Unhealthy
    }
}

/// An agent offered for selection.
#[derive(Debug)]
pub struct AgentSelectionInfo {
    pub id: String,
    pub address: String,
    pub port: u16,
    pub status: String,
    /// Milliseconds since the epoch.
    pub last_heartbeat: i64,
    pub response_time_ms: Option<u64>,
    pub capabilities: Vec<String>,
    pub is_available: bool,
}

/// The key by which a replacement agent is chosen: its response time, unknown
/// counting as slowest.
pub open spec fn speed_key(a: AgentSelectionInfo) -> u64 {
    match a.response_time_ms {
        Some(t) => t,
        None => u64::MAX,
    }
}

/// A usable replacement for the failed agent.
pub open spec fn is_alternative(a: AgentSelectionInfo, failed: Seq<char>) -> bool {
    a.is_available && a.id@ != failed
}

/// Picks a replacement for a failed agent: the first available agent other than
/// it with the smallest response time (unknown counts as slowest).
pub fn find_alternative_agent(agents: &Vec<AgentSelectionInfo>, failed_agent_id: &str) -> (r: Option<String>)
    ensures
        match r {
            None => forall|i: int| 0 <= i < agents@.len() ==> !is_alternative(#[trigger] agents@[i], failed_agent_id@),
            Some(id) => exists|k: int|
                0 <= k < agents@.len() && is_alternative(#[trigger] agents@[k], failed_agent_id@) && agents@[k].id@ == id@
                    && (forall|i: int| 0 <= i < agents@.len() && is_alternative(agents@[i], failed_agent_id@) ==> speed_key(
                    agents@[k],
                ) <= speed_key(#[trigger] agents@[i])) && (forall|i: int|
                    0 <= i < k && is_alternative(agents@[i], failed_agent_id@) ==> speed_key(agents@[k]) < speed_key(
                        #[trigger] agents@[i],
                    )),
        },
{
    let mut best: Option<usize> = None;
    let mut i: usize = 0;
    while i < agents.len()
        invariant
            i <= agents@.len(),
            match best {
                None => forall|t: int| 0 <= t < i ==> !is_alternative(#[trigger] agents@[t], failed_agent_id@),
                Some(k) => k < i && is_alternative(agents@[k as int], failed_agent_id@) && (forall|t: int|
                    0 <= t < i && is_alternative(agents@[t], failed_agent_id@) ==> speed_key(agents@[k as int]) <= speed_key(
                        #[trigger] agents@[t],
                    )) && (forall|t: int|
                    0 <= t < k && is_alternative(agents@[t], failed_agent_id@) ==> speed_key(agents@[k as int]) < speed_key(
                        #[trigger] agents@[t],
                    )),
            },
        decreases agents.len() - i,
    {
        let a = &agents[i];
        if a.is_available && !str_eq(a.id.as_str(), failed_agent_id) {
            let key = match a.response_time_ms {
                Some(t) => t,
                None => u64::MAX,
            };
            match best {
                None => {
                    best = Some(i);
                },
                Some(k) => {
                    let bk = match agents[k].response_time_ms {
                        Some(t) => t,
                        None => u64::MAX,
                    };
                    if key < bk {
                        best = Some(i);
                    }
                },
            }
        }
        i = i + 1;
    }
    match best {
        Some(k) => Some(agents[k].id.clone()),
        None => None,
    }
}

/// An agent as the agent registry lists it.
#[derive(Debug)]
pub struct RegisteredAgent {
    pub id: String,
    pub address: String,
    pub port: u16,
    pub status: String,
    /// RFC 3339 time of the last heartbeat.
    pub last_heartbeat: String,
    pub capabilities: Vec<String>,
}

/// The instant (milliseconds since the epoch) an RFC 3339 text denotes, as
/// `chrono::DateTime::parse_from_rfc3339` reads it; `None` when it does not parse.
pub uninterp spec fn rfc3339_instant(s: Seq<char>) -> Option<i64>;

/// `chrono::DateTime::parse_from_rfc3339` followed by `timestamp_millis`: the
/// result is named by `rfc3339_instant`.
#[verifier::external_body]
pub fn parse_rfc3339_millis(s: &str) -> (r: Option<i64>)
    ensures
        r == rfc3339_instant(s@),
{
    match chrono::DateTime::parse_from_rfc3339(s) {
        Ok(d) => Some(d.timestamp_millis()),
        Err(_) => None,
    }
}

/// Position of the first registered agent with the given id, or -1.
pub open spec fn registered_index(agents: Seq<RegisteredAgent>, id: Seq<char>) -> int
    decreases agents.len(),
{
    if agents.len() == 0 {
        -1
    } else if agents[0].id@ == id {
        0
    } else {
        let k = registered_index(agents.drop_first(), id);
        if k < 0 { -1 } else { k + 1 }
    }
}

proof fn lemma_registered_index(agents: Seq<RegisteredAgent>, id: Seq<char>)
    ensures
        -1 <= registered_index(agents, id) < agents.len(),
        registered_index(agents, id) >= 0 ==> agents[registered_index(agents, id)].id@ == id,
        registered_index(agents, id) >= 0 ==> forall|t: int| 0 <= t < registered_index(agents, id) ==> agents[t].id@ != id,
        registered_index(agents, id) < 0 ==> forall|t: int| 0 <= t < agents.len() ==> agents[t].id@ != id,
    decreases agents.len(),
{
    if agents.len() > 0 {
        lemma_registered_index(agents.drop_first(), id);
        assert forall|t: int| 0 < t < agents.len() implies agents[t] == agents.drop_first()[t - 1] by {}
    }
}

fn find_registered(agents: &Vec<RegisteredAgent>, id: &str) -> (k: Option<usize>)
    ensures
        match k {
            Some(i) => i == registered_index(agents@, id@) && i < agents@.len(),
            None => registered_index(agents@, id@) < 0,
        },
{
    proof {
        lemma_registered_index(agents@, id@);
    }
    let mut i: usize = 0;
    while i < agents.len()
        invariant
            i <= agents@.len(),
            forall|t: int| 0 <= t < i ==> agents@[t].id@ != id@,
            -1 <= registered_index(agents@, id@) < agents@.len(),
            registered_index(agents@, id@) >= 0 ==> agents@[registered_index(agents@, id@)].id@ == id@,
            registered_index(agents@, id@) >= 0 ==> forall|t: int| 0 <= t < registered_index(agents@, id@) ==> agents@[t].id@ != id@,
            registered_index(agents@, id@) < 0 ==> forall|t: int| 0 <= t < agents@.len() ==> agents@[t].id@ != id@,
        decreases agents.len() - i,
    {
        if str_eq(agents[i].id.as_str(), id) {
            proof {
                let f = registered_index(agents@, id@);
                assert(f >= 0);
                if f < i {
                    assert(agents@[f].id@ == id@);
                }
            }
            return Some(i);
        }
        i = i + 1;
    }
    None
}

/// An agent can take a repeater request: it is registered and its status is
/// `Online`.
pub open spec fn agent_online(agents: Seq<RegisteredAgent>, id: Seq<char>) -> bool {
    let k = registered_index(agents, id);
    &&& k >= 0
    &&& agents[k].status@ == "Online"@
}

/// An agent is online and its heartbeat (when readable) is at most a minute old.
pub open spec fn agent_usable(agents: Seq<RegisteredAgent>, id: Seq<char>, now_ms: i64) -> bool {
    let k = registered_index(agents, id);
    &&& agent_online(agents, id)
    &&& (rfc3339_instant(agents[k].last_heartbeat@) matches Some(hb) ==> trunc_div(now_ms - hb, 1000) <= 60)
}

/// Checks that an agent can take a repeater request (see `agent_online`); the
/// error names the agent.
pub fn validate_agent_availability(agents: &Vec<RegisteredAgent>, agent_id: &str) -> (r: Result<(), AttackError>)
    ensures
        r is Ok <==> agent_online(agents@, agent_id@),
        r matches Err(e) ==> (e matches AttackError::AgentUnavailable { agent_id: a } && a@ == agent_id@),
{
    match find_registered(agents, agent_id) {
        Some(k) => {
            if str_eq(agents[k].status.as_str(), "Online") {
                Ok(())
            } else {
                Err(AttackError::AgentUnavailable { agent_id: owned(agent_id) })
            }
        },
        None => Err(AttackError::AgentUnavailable { agent_id: owned(agent_id) }),
    }
}

/// The stricter check: the agent is online and its heartbeat is not stale (see
/// `agent_usable`); the error names the agent.
pub fn validate_agent_availability_internal(agents: &Vec<RegisteredAgent>, agent_id: &str, now_ms: i64) -> (r: Result<(), AttackError>)
    ensures
        r is Ok <==> agent_usable(agents@, agent_id@, now_ms),
        r matches Err(e) ==> (e matches AttackError::AgentUnavailable { agent_id: a } && a@ == agent_id@),
{
    match find_registered(agents, agent_id) {
        Some(k) => {
            let a = &agents[k];
            if str_eq(a.status.as_str(), "Online") {
                match parse_rfc3339_millis(a.last_heartbeat.as_str()) {
                    Some(hb) => {
                        let age = whole_seconds_between(hb, now_ms);
                        if age > 60 {
                            return Err(AttackError::AgentUnavailable { agent_id: owned(agent_id) });
                        }
                    },
                    None => {},
                }
                Ok(())
            } else {
                Err(AttackError::AgentUnavailable { agent_id: owned(agent_id) })
            }
        },
        None => Err(AttackError::AgentUnavailable { agent_id: owned(agent_id) }),
    }
}

/// Health details of one agent.
#[derive(Debug)]
pub struct AgentHealthStatus {
    pub agent_id: String,
    pub status: HealthStatus,
    /// Milliseconds since the epoch.
    pub last_heartbeat: i64,
    pub heartbeat_age_seconds: i64,
    pub capabilities: Vec<String>,
    /// `address:port`.
    pub address: String,
}

/// The health details of a registered agent; an unreadable heartbeat counts as
/// just now.
pub fn get_agent_health(agents: &Vec<RegisteredAgent>, agent_id: &str, now_ms: i64) -> (r: Option<AgentHealthStatus>)
    ensures
        ({
            let k = registered_index(agents@, agent_id@);
            &&& k < 0 ==> r is None
            &&& k >= 0 ==> (r matches Some(h) && {
                let a = agents@[k];
                let hb = match rfc3339_instant(a.last_heartbeat@) {
                    Some(t) => t,
                    None => now_ms,
                };
                &&& h.agent_id@ == a.id@
                &&& h.last_heartbeat == hb
                &&& h.heartbeat_age_seconds == trunc_div(now_ms - hb, 1000)
                &&& h.status == repeater_health(a.status@, h.heartbeat_age_seconds as int)
                &&& h.capabilities@ == a.capabilities@
                &&& h.address@ == a.address@ + ":"@ + nat_text(a.port as nat)
            })
        }),
{
    match find_registered(agents, agent_id) {
        Some(k) => {
            let a = &agents[k];
            let hb = match parse_rfc3339_millis(a.last_heartbeat.as_str()) {
                Some(t) => t,
                None => now_ms,
            };
            let age = whole_seconds_between(hb, now_ms);
            let status = classify_agent_health(a.status.as_str(), age);
            let mut address = a.address.clone();
            append_str(&mut address, ":");
            let p = u64_text(a.port as u64);
            append_str(&mut address, p.as_str());
            let caps = a.capabilities.clone();
            proof {
                assert(caps@ =~= a.capabilities@);
            }
            Some(AgentHealthStatus {
                agent_id: a.id.clone(),
                status,
                last_heartbeat: hb,
                heartbeat_age_seconds: age,
                capabilities: caps,
                address,
            })
        },
        None => None,
    }
}

fn texts_vec4(a: &str, b: &str, c: &str, d: &str) -> (r: Vec<String>)
    ensures
        texts(r@) == seq![a@, b@, c@, d@],
{
    let mut v: Vec<String> = Vec::new();
    v.push(owned(a));
    v.push(owned(b));
    v.push(owned(c));
    v.push(owned(d));
    assert(texts(v@) =~= seq![a@, b@, c@, d@]);
    v
}

fn texts_vec3(a: &str, b: &str, c: &str) -> (r: Vec<String>)
    ensures
        texts(r@) == seq![a@, b@, c@],
{
    let mut v: Vec<String> = Vec::new();
    v.push(owned(a));
    v.push(owned(b));
    v.push(owned(c));
    assert(texts(v@) =~= seq![a@, b@, c@]);
    v
}

/// What the user can try for each kind of error.
pub open spec fn remediation_for(e: AttackError) -> Seq<Seq<char>> {
    match e {
        AttackError::AgentUnavailable { .. } => seq![
            "Check if the agent is online in the Agents panel"@,
            "Try selecting a different agent"@,
            "Wait for the agent to come back online"@,
            "Contact your system administrator if the problem persists"@,
        ],
        AttackError::NetworkError { .. } => seq![
            "Check your network connection"@,
            "Verify the agent is reachable"@,
            "Try again in a few moments"@,
            "Check firewall settings if the problem persists"@,
        ],
        AttackError::InvalidPayloadConfig { .. } => seq![
            "Review the request URL and method"@,
            "Check header formatting"@,
            "Validate request body content"@,
            "Ensure all required fields are filled"@,
        ],
        AttackError::SessionExpired { .. } => seq![
            "Refresh the session using LSR"@,
            "Select a different active session"@,
            "Remove session data and try without authentication"@,
        ],
        _ => seq![
            "Try the request again"@,
            "Check the application logs for more details"@,
            "Contact support if the problem persists"@,
        ],
    }
}

/// Explains an error to the user: its kind, a message, what to try, and whether
/// retrying may help. Errors without a specific explanation use
/// `fallback_message` (the error's own description).
pub fn get_error_details(error: &AttackError, fallback_message: &str) -> (r: ErrorDetails)
    ensures
        texts(r.remediation@) == remediation_for(*error),
        match *error {
            AttackError::AgentUnavailable { agent_id } => r.error_type@ == "Agent Unavailable"@ && r.message@ == "Agent '"@
                + agent_id@ + "' is not available for request execution"@ && r.is_retryable,
            AttackError::NetworkError { details } => r.error_type@ == "Network Error"@ && r.message@
                == "Network communication failed: "@ + details@ && r.is_retryable,
            AttackError::InvalidPayloadConfig { reason } => r.error_type@ == "Invalid Request"@ && r.message@
                == "Request configuration is invalid: "@ + reason@ && !r.is_retryable,
            AttackError::SessionExpired { session_id } => r.error_type@ == "Session Expired"@ && r.message@ == "Session '"@
                + session_id@ + "' has expired or is invalid"@ && !r.is_retryable,
            _ => r.error_type@ == "Unknown Error"@ && r.message@ == fallback_message@ && r.is_retryable,
        },
{
    match error {
        AttackError::AgentUnavailable { agent_id } => {
            let mut m = owned("Agent '");
            append_str(&mut m, agent_id.as_str());
            append_str(&mut m, "' is not available for request execution");
            ErrorDetails {
                error_type: owned("Agent Unavailable"),
                message: m,
                remediation: texts_vec4(
                    "Check if the agent is online in the Agents panel",
                    "Try selecting a different agent",
                    "Wait for the agent to come back online",
                    "Contact your system administrator if the problem persists",
                ),
                is_retryable: true,
            }
        },
        AttackError::NetworkError { details } => {
            let mut m = owned("Network communication failed: ");
            append_str(&mut m, details.as_str());
            ErrorDetails {
                error_type: owned("Network Error"),
                message: m,
                remediation: texts_vec4(
                    "Check your network connection",
                    "Verify the agent is reachable",
                    "Try again in a few moments",
                    "Check firewall settings if the problem persists",
                ),
                is_retryable: true,
            }
        },
        AttackError::InvalidPayloadConfig { reason } => {
            let mut m = owned("Request configuration is invalid: ");
            append_str(&mut m, reason.as_str());
            ErrorDetails {
                error_type: owned("Invalid Request"),
                message: m,
                remediation: texts_vec4(
                    "Review the request URL and method",
                    "Check header formatting",
                    "Validate request body content",
                    "Ensure all required fields are filled",
                ),
                is_retryable: false,
            }
        },
        AttackError::SessionExpired { session_id } => {
            let mut m = owned("Session '");
            append_str(&mut m, session_id.as_str());
            append_str(&mut m, "' has expired or is invalid");
            let rem = texts_vec3(
                "Refresh the session using LSR",
                "Select a different active session",
                "Remove session data and try without authentication",
            );
            ErrorDetails { error_type: owned("Session Expired"), message: m, remediation: rem, is_retryable: false }
        },
        _ => {
            let rem = texts_vec3(
                "Try the request again",
                "Check the application logs for more details",
                "Contact support if the problem persists",
            );
            ErrorDetails {
                error_type: owned("Unknown Error"),
                message: owned(fallback_message),
                remediation: rem,
                is_retryable: true,
            }
        },
    }
}

/// One recorded repeater execution, as the statistics read it.
#[derive(Debug)]
pub struct ExecutionRecord {
    pub duration_ms: Option<u64>,
    pub status_code: Option<i32>,
    /// Milliseconds since the epoch.
    pub executed_at: i64,
    pub error: Option<String>,
}

/// Counters over a tab's executions (the average duration is the total duration
/// divided by the number of executions).
#[derive(Debug)]
pub struct ExecutionStatistics {
    pub total_executions: usize,
    pub successful_executions: usize,
    pub error_count: usize,
    pub total_duration_ms: u64,
    /// How often each status code occurred, in order of first occurrence.
    pub status_code_distribution: Vec<(i32, usize)>,
    pub last_execution: Option<i64>,
}

/// The execution succeeded: no error and a status below 400.
pub open spec fn execution_ok(e: ExecutionRecord) -> bool {
    e.error is None && (e.status_code matches Some(s) && s < 400)
}

/// Number of successful executions among `e`.
pub open spec fn success_count(e: Seq<ExecutionRecord>) -> nat
    decreases e.len(),
{
    if e.len() == 0 { 0 } else { success_count(e.drop_last()) + if execution_ok(e.last()) { 1nat } else { 0nat } }
}

/// Sum of the known durations among `e`.
pub open spec fn duration_sum(e: Seq<ExecutionRecord>) -> nat
    decreases e.len(),
{
    if e.len() == 0 {
        0
    } else {
        duration_sum(e.drop_last()) + match e.last().duration_ms {
            Some(d) => d as nat,
            None => 0nat,
        }
    }
}

/// Number of executions among `e` with status code `c`.
pub open spec fn code_count(e: Seq<ExecutionRecord>, c: i32) -> nat
    decreases e.len(),
{
    if e.len() == 0 { 0 } else { code_count(e.drop_last(), c) + if e.last().status_code == Some(c) { 1nat } else { 0nat } }
}

proof fn lemma_success_bound(e: Seq<ExecutionRecord>)
    ensures
        success_count(e) <= e.len(),
    decreases e.len(),
{
    if e.len() > 0 {
        lemma_success_bound(e.drop_last());
    }
}

proof fn lemma_code_bound(e: Seq<ExecutionRecord>, c: i32)
    ensures
        code_count(e, c) <= e.len(),
    decreases e.len(),
{
    if e.len() > 0 {
        lemma_code_bound(e.drop_last(), c);
    }
}

proof fn lemma_duration_prefix(e: Seq<ExecutionRecord>, k: int)
    requires
        0 <= k <= e.len(),
    ensures
        duration_sum(e.take(k)) <= duration_sum(e),
    decreases e.len() - k,
{
    if k < e.len() {
        lemma_duration_prefix(e, k + 1);
        assert(e.take(k + 1).drop_last() =~= e.take(k));
    } else {
        assert(e.take(k) =~= e);
    }
}

/// Counts a tab's executions (newest first): how many there are, how many
/// succeeded, how many failed, their total duration, how often each status code
/// occurred, and when the newest ran.
pub fn get_execution_statistics(executions: &Vec<ExecutionRecord>) -> (r: ExecutionStatistics)
    requires
        duration_sum(executions@) <= u64::MAX,
    ensures
        r.total_executions == executions@.len(),
        r.successful_executions == success_count(executions@),
        r.error_count == executions@.len() - success_count(executions@),
        r.total_duration_ms == duration_sum(executions@),
        forall|i: int| 0 <= i < r.status_code_distribution@.len() ==> (#[trigger] r.status_code_distribution@[i]).1
            == code_count(executions@, r.status_code_distribution@[i].0) && code_count(executions@, r.status_code_distribution@[i].0) > 0,
        forall|i: int, j: int| 0 <= i < j < r.status_code_distribution@.len() ==> (#[trigger] r.status_code_distribution@[i]).0
            != (#[trigger] r.status_code_distribution@[j]).0,
        forall|k: int| 0 <= k < executions@.len() && (#[trigger] executions@[k]).status_code is Some ==> exists|i: int|
            0 <= i < r.status_code_distribution@.len() && r.status_code_distribution@[i].0 == executions@[k].status_code->0,
        r.last_execution == (if executions@.len() > 0 { Some(executions@[0].executed_at) } else { None::<i64> }),
{
    let mut ok: usize = 0;
    let mut total_ms: u64 = 0;
    let mut dist: Vec<(i32, usize)> = Vec::new();
    let mut i: usize = 0;
    while i < executions.len()
        invariant
            i <= executions@.len(),
            duration_sum(executions@) <= u64::MAX,
            ok == success_count(executions@.take(i as int)),
            total_ms == duration_sum(executions@.take(i as int)),
            forall|t: int| 0 <= t < dist@.len() ==> (#[trigger] dist@[t]).1 == code_count(executions@.take(i as int), dist@[t].0)
                && code_count(executions@.take(i as int), dist@[t].0) > 0,
            forall|a: int, b: int| 0 <= a < b < dist@.len() ==> (#[trigger] dist@[a]).0 != (#[trigger] dist@[b]).0,
            forall|k: int| 0 <= k < i && (#[trigger] executions@[k]).status_code is Some ==> exists|t: int|
                0 <= t < dist@.len() && dist@[t].0 == executions@[k].status_code->0,
        decreases executions.len() - i,
    {
        let ghost pre = executions@.take(i as int);
        proof {
            assert(executions@.take(i + 1).drop_last() =~= pre);
            lemma_success_bound(pre);
            lemma_duration_prefix(executions@, i + 1);
        }
        let e = &executions[i];
        let good = match (&e.error, e.status_code) {
            (None, Some(s)) => s < 400,
            _ => false,
        };
        if good {
            ok = ok + 1;
        }
        match e.duration_ms {
            Some(d) => {
                total_ms = total_ms + d;
            },
            None => {},
        }
        match e.status_code {
            Some(c) => {
                let mut j: usize = 0;
                while j < dist.len() && dist[j].0 != c
                    invariant
                        j <= dist@.len(),
                        forall|t: int| 0 <= t < j ==> dist@[t].0 != c,
                    decreases dist.len() - j,
                {
                    j = j + 1;
                }
                let ghost d0 = dist@;
                proof {
                    lemma_code_bound(pre, c);
                }
                if j < dist.len() {
                    let n = dist[j].1;
                    dist.set(j, (c, n + 1));
                } else {
                    proof {
                        assert(code_count(pre, c) == 0) by {
                            if code_count(pre, c) > 0 {
                                lemma_code_positive(pre, c);
                                let k = choose|k: int| 0 <= k < pre.len() && pre[k].status_code == Some(c);
                                assert(executions@[k].status_code is Some);
                                let t = choose|t: int| 0 <= t < d0.len() && d0[t].0 == executions@[k].status_code->0;
                                assert(d0[t].0 == c);
                            }
                        }
                    }
                    dist.push((c, 1));
                }
                proof {
                    let now = executions@.take(i + 1);
                    assert forall|t: int| 0 <= t < dist@.len() implies (#[trigger] dist@[t]).1 == code_count(now, dist@[t].0)
                        && code_count(now, dist@[t].0) > 0 by {
                        if t < d0.len() && t != j {
                            assert(dist@[t] == d0[t]);
                        }
                    }
                    assert forall|k: int| 0 <= k < i + 1 && (#[trigger] executions@[k]).status_code is Some implies exists|t: int|
                        0 <= t < dist@.len() && dist@[t].0 == executions@[k].status_code->0 by {
                        if k < i {
                            let t = choose|t: int| 0 <= t < d0.len() && d0[t].0 == executions@[k].status_code->0;
                            assert(dist@[t].0 == d0[t].0);
                        } else {
                            assert(dist@[j as int].0 == c);
                        }
                    }
                }
            },
            None => {
                proof {
                    let now = executions@.take(i + 1);
                    assert forall|t: int| 0 <= t < dist@.len() implies (#[trigger] dist@[t]).1 == code_count(now, dist@[t].0)
                        && code_count(now, dist@[t].0) > 0 by {}
                }
            },
        }
        i = i + 1;
    }
    proof {
        assert(executions@.take(executions@.len() as int) =~= executions@);
        lemma_success_bound(executions@);
        assert forall|k: int| 0 <= k < executions@.len() && (#[trigger] executions@[k]).status_code is Some implies exists|t: int|
            0 <= t < dist@.len() && dist@[t].0 == executions@[k].status_code->0 by {
            assert(0 <= k < i);
        }
    }
    let last = if executions.len() > 0 { Some(executions[0].executed_at) } else { None };
    let r = ExecutionStatistics {
        total_executions: executions.len(),
        successful_executions: ok,
        error_count: executions.len() - ok,
        total_duration_ms: total_ms,
        status_code_distribution: dist,
        last_execution: last,
    };
    proof {
        assert forall|k: int| 0 <= k < executions@.len() && (#[trigger] executions@[k]).status_code is Some implies exists|t: int|
            0 <= t < r.status_code_distribution@.len() && r.status_code_distribution@[t].0 == executions@[k].status_code->0 by {
            assert(0 <= k < i);
            let t = choose|t: int| 0 <= t < dist@.len() && dist@[t].0 == executions@[k].status_code->0;
            assert(r.status_code_distribution@[t].0 == executions@[k].status_code->0);
        }
    }
    r
}

proof fn lemma_code_positive(e: Seq<ExecutionRecord>, c: i32)
    requires
        code_count(e, c) > 0,
    ensures
        exists|k: int| 0 <= k < e.len() && e[k].status_code == Some(c),
    decreases e.len(),
{
    if e.last().status_code == Some(c) {
        assert(e[e.len() - 1].status_code == Some(c));
    } else {
        lemma_code_positive(e.drop_last(), c);
        let k = choose|k: int| 0 <= k < e.drop_last().len() && e.drop_last()[k].status_code == Some(c);
        assert(e[k] == e.drop_last()[k]);
    }
}

/// An agent that is not online is unhealthy whatever its heartbeat; an online
/// one is healthy with a heartbeat at most 60 s old, degraded up to 300 s, and
/// unhealthy beyond; an older heartbeat never gives a better health.
pub proof fn law_repeater_health_thresholds(status: Seq<char>, age: int, older: int)
    ensures
        status != "Online"@ ==> repeater_health(status, age) == HealthStatus::Unhealthy,
        status == "Online"@ && age <= 60 ==> repeater_health(status, age) == HealthStatus::Healthy,
        status == "Online"@ && 60 < age <= 300 ==> repeater_health(status, age) == HealthStatus::Degraded,
        status == "Online"@ && age > 300 ==> repeater_health(status, age) == HealthStatus::Unhealthy,
        age <= older && repeater_health(status, older) == HealthStatus::Healthy ==> repeater_health(status, age)
            == HealthStatus::Healthy,
        age <= older && repeater_health(status, age) == HealthStatus::Unhealthy ==> repeater_health(status, older)
            == HealthStatus::Unhealthy,
{
}

} // verus!
