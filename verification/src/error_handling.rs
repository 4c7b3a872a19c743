//! Error handling decisions: input validation verdicts, quick detection of
//! failing agents, fallback actions, and the outcome of handling an error.

use vstd::prelude::*;
use crate::engine::AttackError;
use crate::text::{append_str, owned, str_eq};

verus! {

/// One problem found in an input.
#[derive(Debug)]
pub struct ValidationError {
    pub field: String,
    pub message: String,
    pub error_code: String,
    pub suggested_fix: String,
}

/// The verdict on an input.
#[derive(Debug)]
pub struct ValidationResult {
    pub is_valid: bool,
    pub errors: Vec<ValidationError>,
    pub warnings: Vec<String>,
}

/// What to do instead when an operation fails.
#[derive(Debug)]
pub enum FallbackAction {
    FailFast,
    UseFallbackAgent { agent_ids: Vec<String> },
    ReduceLoad,
    BackoffAndRetry { delay_ms: u64 },
    SwitchToOfflineMode,
    NotifyUser { message: String },
}

/// The error a validator reports for an empty input, if the validator is known:
/// `(field, message, code, fix)`.
pub open spec fn empty_input_error(validator: Seq<char>) -> Option<(Seq<char>, Seq<char>, Seq<char>, Seq<char>)> {
    if validator == "repeater_request"@ {
        Some(("request"@, "Request cannot be empty"@, "EMPTY_REQUEST"@, "Provide a valid HTTP request"@))
    } else if validator == "intruder_attack"@ {
        Some(
            (
                "attack_config"@,
                "Attack configuration cannot be empty"@,
                "EMPTY_ATTACK_CONFIG"@,
                "Provide a valid attack configuration"@,
            ),
        )
    } else if validator == "payload_config"@ {
        Some(
            (
                "payload_config"@,
                "Payload configuration cannot be empty"@,
                "EMPTY_PAYLOAD_CONFIG"@,
                "Provide a valid payload configuration"@,
            ),
        )
    } else if validator == "session_data"@ {
        Some(("session_data"@, "Session data cannot be empty"@, "EMPTY_SESSION_DATA"@, "Provide valid session data"@))
    } else {
        None
    }
}

/// The validator is one of the known ones.
pub open spec fn known_validator(v: Seq<char>) -> bool {
    v == "repeater_request"@ || v == "intruder_attack"@ || v == "payload_config"@ || v == "session_data"@
}

/// The error matches the tuple `(field, message, code, fix)`.
pub open spec fn error_is(e: ValidationError, t: (Seq<char>, Seq<char>, Seq<char>, Seq<char>)) -> bool {
    e.field@ == t.0 && e.message@ == t.1 && e.error_code@ == t.2 && e.suggested_fix@ == t.3
}

fn validation_error(field: &str, message: &str, code: &str, fix: &str) -> (r: ValidationError)
    ensures
        r.field@ == field@ && r.message@ == message@ && r.error_code@ == code@ && r.suggested_fix@ == fix@,
{
    ValidationError { field: owned(field), message: owned(message), error_code: owned(code), suggested_fix: owned(fix) }
}

/// Validates a serialized input with the named validator. A failed serialization
/// is an error on its own; otherwise a detected piece of sensitive data is a
/// warning, a known validator rejects an empty input, and an unknown validator
/// is reported as a warning.
pub fn validate_input(serialized: Result<String, String>, sensitive: Option<String>, validator_name: &str) -> (r: ValidationResult)
    ensures
        match serialized {
            Err(e) => !r.is_valid && r.errors@.len() == 1 && r.errors@[0].field@ == "input"@ && r.errors@[0].message@
                == "Failed to serialize input: "@ + e@ && r.errors@[0].error_code@ == "SERIALIZATION_ERROR"@
                && r.errors@[0].suggested_fix@ == "Check input data structure and ensure all fields are serializable"@
                && r.warnings@.len() == 0,
            Ok(json) => {
                let sens_w = match sensitive {
                    Some(d) => seq!["Potential sensitive data detected: "@ + d@],
                    None => Seq::<Seq<char>>::empty(),
                };
                let unknown_w = if known_validator(validator_name@) {
                    Seq::<Seq<char>>::empty()
                } else {
                    seq!["Unknown validator '"@ + validator_name@ + "' - performing basic validation only"@]
                };
                &&& r.warnings@.map_values(|w: String| w@) == sens_w + unknown_w
                &&& (json@.len() == 0 && empty_input_error(validator_name@) is Some) ==> (r.errors@.len() == 1
                    && error_is(r.errors@[0], empty_input_error(validator_name@)->0))
                &&& !(json@.len() == 0 && empty_input_error(validator_name@) is Some) ==> r.errors@.len() == 0
                &&& r.is_valid == (r.errors@.len() == 0)
            },
        },
{
    let ghost sens0 = sensitive;
    let mut errors: Vec<ValidationError> = Vec::new();
    let mut warnings: Vec<String> = Vec::new();
    let json = match serialized {
        Ok(j) => j,
        Err(e) => {
            let mut m = owned("Failed to serialize input: ");
            append_str(&mut m, e.as_str());
            errors.push(
                ValidationError {
                    field: owned("input"),
                    message: m,
                    error_code: owned("SERIALIZATION_ERROR"),
                    suggested_fix: owned("Check input data structure and ensure all fields are serializable"),
                },
            );
            return ValidationResult { is_valid: false, errors, warnings };
        },
    };
    match sensitive {
        Some(d) => {
            let mut w = owned("Potential sensitive data detected: ");
            append_str(&mut w, d.as_str());
            warnings.push(w);
        },
        None => {},
    }
    let empty = json.as_str().is_empty();
    if str_eq(validator_name, "repeater_request") {
        if empty {
            errors.push(validation_error("request", "Request cannot be empty", "EMPTY_REQUEST", "Provide a valid HTTP request"));
        }
    } else if str_eq(validator_name, "intruder_attack") {
        if empty {
            errors.push(
                validation_error(
                    "attack_config",
                    "Attack configuration cannot be empty",
                    "EMPTY_ATTACK_CONFIG",
                    "Provide a valid attack configuration",
                ),
            );
        }
    } else if str_eq(validator_name, "payload_config") {
        if empty {
            errors.push(
                validation_error(
                    "payload_config",
                    "Payload configuration cannot be empty",
                    "EMPTY_PAYLOAD_CONFIG",
                    "Provide a valid payload configuration",
                ),
            );
        }
    } else if str_eq(validator_name, "session_data") {
        if empty {
            errors.push(
                validation_error("session_data", "Session data cannot be empty", "EMPTY_SESSION_DATA", "Provide valid session data"),
            );
        }
    } else {
        let mut w = owned("Unknown validator '");
        append_str(&mut w, validator_name);
        append_str(&mut w, "' - performing basic validation only");
        warnings.push(w);
    }
    let r = ValidationResult { is_valid: errors.len() == 0, errors, warnings };
    proof {
        let sens_w = match sens0 {
            Some(d) => seq!["Potential sensitive data detected: "@ + d@],
            None => Seq::<Seq<char>>::empty(),
        };
        let unknown_w = if known_validator(validator_name@) {
            Seq::<Seq<char>>::empty()
        } else {
            seq!["Unknown validator '"@ + validator_name@ + "' - performing basic validation only"@]
        };
        assert(r.warnings@.map_values(|w: String| w@) =~= sens_w + unknown_w);
    }
    r
}

/// `r` is the fallback for `error` given the component's fallback agents: other
/// agents when an agent is unavailable and there are some, less load when
/// resources run out, waiting (the advised time, else a minute) when rate
/// limited; nothing otherwise.
pub open spec fn is_fallback_for(r: Option<FallbackAction>, error: AttackError, fallback_agents: Seq<String>) -> bool {
    match error {
        AttackError::AgentUnavailable { .. } => if fallback_agents.len() > 0 {
            r matches Some(FallbackAction::UseFallbackAgent { agent_ids }) && agent_ids@ == fallback_agents
        } else {
            r is None
        },
        AttackError::ResourceExhaustion { .. } => r matches Some(FallbackAction::ReduceLoad),
        AttackError::RateLimitExceeded { retry_after_ms } => r matches Some(FallbackAction::BackoffAndRetry { delay_ms })
            && delay_ms == (match retry_after_ms {
            Some(t) => t,
            None => 60000,
        }),
        _ => r is None,
    }
}

/// The fallback for an error: other agents when an agent is unavailable and the
/// component has fallback agents, less load when resources run out, waiting
/// (the advised time, else a minute) when rate limited; nothing otherwise.
pub fn determine_fallback_action(error: &AttackError, fallback_agents: &Vec<String>) -> (r: Option<FallbackAction>)
    ensures
        is_fallback_for(r, *error, fallback_agents@),
{
    match error {
        AttackError::AgentUnavailable { .. } => {
            if fallback_agents.len() > 0 {
                let ids = fallback_agents.clone();
                proof {
                    assert(ids@ =~= fallback_agents@);
                }
                Some(FallbackAction::UseFallbackAgent { agent_ids: ids })
            } else {
                None
            }
        },
        AttackError::ResourceExhaustion { .. } => Some(FallbackAction::ReduceLoad),
        AttackError::RateLimitExceeded { retry_after_ms } => {
            let d = match retry_after_ms {
                Some(t) => *t,
                None => 60000,
            };
            Some(FallbackAction::BackoffAndRetry { delay_ms: d })
        },
        _ => None,
    }
}

/// The errors a component's circuit breaker records as failures: an
/// unavailable agent, a network error, a timeout or a failed execution.
/// Configuration, database, session, resource and rate-limit errors are not
/// counted.
pub open spec fn breaker_failure(e: AttackError) -> bool {
    ||| e is AgentUnavailable
    ||| e is NetworkError
    ||| e is Timeout
    ||| e is ExecutionFailed
}

/// Whether the circuit breaker of the component that met this error records it
/// as a failure (see `breaker_failure`).
pub fn counts_toward_circuit_breaker(error: &AttackError) -> (r: bool)
    ensures
        r == breaker_failure(*error),
{
    match error {
        AttackError::AgentUnavailable { .. } => true,
        AttackError::NetworkError { .. } => true,
        AttackError::Timeout { .. } => true,
        AttackError::ExecutionFailed { .. } => true,
        _ => false,
    }
}

/// Failure record of one agent.
#[derive(Debug)]
pub struct AgentFailureTracker {
    pub agent_id: String,
    pub consecutive_failures: u32,
    /// Milliseconds since the epoch.
    pub last_failure_time: i64,
    pub is_marked_unhealthy: bool,
    pub recovery_attempts: u32,
}

/// An agent fails quickly once it has failed three times in a row (a failure
/// rate of two per minute over the five-minute window would need ten).
pub open spec fn quick_failure(consecutive: nat) -> bool {
    consecutive >= 3
}

/// Failure records of the agents, one per agent.
pub struct AgentFailures {
    pub trackers: Vec<AgentFailureTracker>,
}

/// Position of the record of agent `id`, or -1.
pub open spec fn tracker_index(t: Seq<AgentFailureTracker>, id: Seq<char>) -> int
    decreases t.len(),
{
    if t.len() == 0 {
        -1
    } else if t[0].agent_id@ == id {
        0
    } else {
        let k = tracker_index(t.drop_first(), id);
        if k < 0 { -1 } else { k + 1 }
    }
}

proof fn lemma_tracker_index(t: Seq<AgentFailureTracker>, id: Seq<char>)
    ensures
        -1 <= tracker_index(t, id) < t.len(),
        tracker_index(t, id) >= 0 ==> t[tracker_index(t, id)].agent_id@ == id,
        tracker_index(t, id) >= 0 ==> forall|u: int| 0 <= u < tracker_index(t, id) ==> t[u].agent_id@ != id,
        tracker_index(t, id) < 0 ==> forall|u: int| 0 <= u < t.len() ==> t[u].agent_id@ != id,
    decreases t.len(),
{
    if t.len() > 0 {
        lemma_tracker_index(t.drop_first(), id);
        assert forall|u: int| 0 < u < t.len() implies t[u] == t.drop_first()[u - 1] by {}
    }
}

/// The consecutive failures recorded for agent `id` (none without a record).
pub open spec fn failures_of(t: Seq<AgentFailureTracker>, id: Seq<char>) -> nat {
    let k = tracker_index(t, id);
    if k >= 0 { t[k].consecutive_failures as nat } else { 0 }
}

impl AgentFailures {
    /// No failures recorded.
    pub fn new() -> (r: AgentFailures)
        ensures
            r.trackers@.len() == 0,
    {
        AgentFailures { trackers: Vec::new() }
    }

    fn find(&self, id: &str) -> (k: Option<usize>)
        ensures
            match k {
                Some(i) => i == tracker_index(self.trackers@, id@) && i < self.trackers@.len(),
                None => tracker_index(self.trackers@, id@) < 0,
            },
    {
        proof {
            lemma_tracker_index(self.trackers@, id@);
        }
        let mut i: usize = 0;
        while i < self.trackers.len()
            invariant
                i <= self.trackers@.len(),
                forall|t: int| 0 <= t < i ==> self.trackers@[t].agent_id@ != id@,
                -1 <= tracker_index(self.trackers@, id@) < self.trackers@.len(),
                tracker_index(self.trackers@, id@) >= 0 ==> self.trackers@[tracker_index(self.trackers@, id@)].agent_id@ == id@,
                tracker_index(self.trackers@, id@) >= 0 ==> forall|t: int|
                    0 <= t < tracker_index(self.trackers@, id@) ==> self.trackers@[t].agent_id@ != id@,
                tracker_index(self.trackers@, id@) < 0 ==> forall|t: int| 0 <= t < self.trackers@.len() ==> self.trackers@[t].agent_id@ != id@,
            decreases self.trackers.len() - i,
        {
            if str_eq(self.trackers[i].agent_id.as_str(), id) {
                proof {
                    let f = tracker_index(self.trackers@, id@);
                    assert(f >= 0);
                    if f < i {
                        assert(self.trackers@[f].agent_id@ == id@);
                    }
                }
                return Some(i);
            }
            i = i + 1;
        }
        None
    }

    /// Records a failure of agent `id` at `now` and says whether the agent now
    /// fails quickly (three failures in a row); such an agent is marked unhealthy.
    pub fn detect_agent_failure(&mut self, agent_id: &str, now: i64) -> (r: bool)
        requires
            failures_of(old(self).trackers@, agent_id@) < u32::MAX,
        ensures
            failures_of(final(self).trackers@, agent_id@) == failures_of(old(self).trackers@, agent_id@) + 1,
            r == quick_failure(failures_of(final(self).trackers@, agent_id@)),
            ({
                let k = tracker_index(final(self).trackers@, agent_id@);
                let k0 = tracker_index(old(self).trackers@, agent_id@);
                &&& k >= 0
                &&& final(self).trackers@[k].last_failure_time == now
                &&& final(self).trackers@[k].is_marked_unhealthy == (r || (k0 >= 0
                    && old(self).trackers@[k0].is_marked_unhealthy))
            }),
            forall|id: Seq<char>| id != agent_id@ ==> #[trigger] failures_of(final(self).trackers@, id) == failures_of(
                old(self).trackers@,
                id,
            ),
    {
        let ghost t0 = self.trackers@;
        let i = match self.find(agent_id) {
            Some(i) => i,
            None => {
                self.trackers.push(
                    AgentFailureTracker {
                        agent_id: owned(agent_id),
                        consecutive_failures: 0,
                        last_failure_time: now,
                        is_marked_unhealthy: false,
                        recovery_attempts: 0,
                    },
                );
                self.trackers.len() - 1
            },
        };
        let ghost t1 = self.trackers@;
        proof {
            lemma_tracker_index(t0, agent_id@);
            lemma_tracker_index(t1, agent_id@);
            let f = tracker_index(t1, agent_id@);
            if f >= 0 && f < i {
                assert(t1[f].agent_id@ == agent_id@);
                if f < t0.len() {
                    assert(t0[f] == t1[f]);
                }
            }
            assert(t1[i as int].agent_id@ == agent_id@);
            assert(f == i);
            assert forall|id: Seq<char>| id != agent_id@ implies #[trigger] failures_of(t1, id) == failures_of(t0, id) by {
                lemma_tracker_index(t1, id);
                lemma_tracker_index(t0, id);
                let a = tracker_index(t0, id);
                let b = tracker_index(t1, id);
                if a >= 0 {
                    assert(t1[a] == t0[a]);
                }
                if b >= 0 && b < t0.len() {
                    assert(t0[b] == t1[b]);
                }
            }
        }
        let mut t = self.trackers.remove(i);
        t.consecutive_failures = t.consecutive_failures + 1;
        t.last_failure_time = now;
        let quick = t.consecutive_failures >= 3;
        if quick && !t.is_marked_unhealthy {
            t.is_marked_unhealthy = true;
        }
        let ghost nt = t;
        self.trackers.insert(i, t);
        proof {
            let t2 = self.trackers@;
            assert(t2 =~= t1.update(i as int, nt));
            assert(nt.agent_id == t1[i as int].agent_id);
            assert(t2[i as int].agent_id@ == agent_id@);
            lemma_tracker_index(t2, agent_id@);
            let f = tracker_index(t2, agent_id@);
            if f >= 0 && f < i {
                assert(t2[f] == t1[f]);
            }
            assert(f == i);
            assert forall|id: Seq<char>| id != agent_id@ implies #[trigger] failures_of(t2, id) == failures_of(t1, id) by {
                lemma_tracker_index(t2, id);
                lemma_tracker_index(t1, id);
                let a = tracker_index(t1, id);
                let b = tracker_index(t2, id);
                if a >= 0 && a != i {
                    assert(t2[a] == t1[a]);
                }
                if b >= 0 && b != i {
                    assert(t1[b] == t2[b]);
                }
            }
        }
        quick
    }

    /// Clears the failure record of agent `id`, if it has one.
    pub fn mark_agent_healthy(&mut self, agent_id: &str)
        ensures
            failures_of(final(self).trackers@, agent_id@) == 0,
            ({
                let k = tracker_index(final(self).trackers@, agent_id@);
                k >= 0 ==> !final(self).trackers@[k].is_marked_unhealthy && final(self).trackers@[k].recovery_attempts == 0
            }),
            forall|id: Seq<char>| id != agent_id@ ==> #[trigger] failures_of(final(self).trackers@, id) == failures_of(
                old(self).trackers@,
                id,
            ),
    {
        let ghost t0 = self.trackers@;
        match self.find(agent_id) {
            Some(i) => {
                let mut t = self.trackers.remove(i);
                t.consecutive_failures = 0;
                t.is_marked_unhealthy = false;
                t.recovery_attempts = 0;
                let ghost nt = t;
                self.trackers.insert(i, t);
                proof {
                    let t2 = self.trackers@;
                    assert(t2 =~= t0.update(i as int, nt));
                    lemma_tracker_index(t0, agent_id@);
                    assert(nt.agent_id == t0[i as int].agent_id);
                    assert(t2[i as int].agent_id@ == agent_id@);
                    lemma_tracker_index(t2, agent_id@);
                    let f = tracker_index(t2, agent_id@);
                    if f >= 0 && f < i {
                        assert(t2[f] == t0[f]);
                    }
                    assert(f == i);
                    assert forall|id: Seq<char>| id != agent_id@ implies #[trigger] failures_of(t2, id) == failures_of(t0, id) by {
                        lemma_tracker_index(t2, id);
                        lemma_tracker_index(t0, id);
                        let a = tracker_index(t0, id);
                        let b = tracker_index(t2, id);
                        if a >= 0 && a != i {
                            assert(t2[a] == t0[a]);
                        }
                        if b >= 0 && b != i {
                            assert(t0[b] == t2[b]);
                        }
                    }
                }
            },
            None => {},
        }
    }
}

/// After an agent is marked healthy, its next failure is not a quick failure:
/// from a cleared record, one more failure stays below the threshold.
pub proof fn law_healthy_agent_not_quick_after_one_failure(
    cleared: Seq<AgentFailureTracker>,
    after: Seq<AgentFailureTracker>,
    id: Seq<char>,
)
    requires
        failures_of(cleared, id) == 0,
        failures_of(after, id) == failures_of(cleared, id) + 1,
    ensures
        !quick_failure(failures_of(after, id)),
{
}

/// The decision taken for an error.
#[derive(Debug)]
pub struct ErrorHandlingResult {
    pub should_retry: bool,
    pub retry_delay_ms: Option<u64>,
    pub fallback_action: Option<FallbackAction>,
    pub degradation_applied: bool,
    pub error_id: u128,
}

/// The decision for an error: an open circuit fails fast; otherwise retry when
/// the error is recoverable and the component allows retries, after the first
/// backoff delay, with the fallback for the error.
pub fn error_handling_outcome(
    error: &AttackError,
    circuit_open: bool,
    recoverable: bool,
    max_retries: u32,
    first_delay_ms: u64,
    degradation_applied: bool,
    fallback_agents: &Vec<String>,
    error_id: u128,
) -> (r: ErrorHandlingResult)
    ensures
        r.error_id == error_id,
        circuit_open ==> !r.should_retry && r.retry_delay_ms is None && (r.fallback_action matches Some(
            FallbackAction::FailFast,
        )) && !r.degradation_applied,
        !circuit_open ==> r.should_retry == (recoverable && max_retries > 0) && r.retry_delay_ms == (if r.should_retry {
            Some(first_delay_ms)
        } else {
            None
        }) && r.degradation_applied == degradation_applied && is_fallback_for(r.fallback_action, *error, fallback_agents@),
{
    if circuit_open {
        return ErrorHandlingResult {
            should_retry: false,
            retry_delay_ms: None,
            fallback_action: Some(FallbackAction::FailFast),
            degradation_applied: false,
            error_id,
        };
    }
    let should_retry = recoverable && max_retries > 0;
    let retry_delay_ms = if should_retry { Some(first_delay_ms) } else { None };
    let fallback_action = determine_fallback_action(error, fallback_agents);
    ErrorHandlingResult { should_retry, retry_delay_ms, fallback_action, degradation_applied, error_id }
}


/// Error counts for monitoring: the total, and per severity, category and
/// component name (each name with its count, in the order first seen).
#[derive(Debug)]
pub struct ErrorStatistics {
    pub total_errors: u64,
    pub errors_by_severity: Vec<(String, u64)>,
    pub errors_by_category: Vec<(String, u64)>,
    pub errors_by_component: Vec<(String, u64)>,
    pub circuit_breaker_trips: u64,
    /// Milliseconds since the epoch of the last update.
    pub last_updated: i64,
}

/// Named counts as (name, count).
pub open spec fn count_views(v: Seq<(String, u64)>) -> Seq<(Seq<char>, u64)> {
    v.map_values(|p: (String, u64)| (p.0@, p.1))
}

/// Position of the first count of the name, or -1.
pub open spec fn key_index(s: Seq<(Seq<char>, u64)>, key: Seq<char>) -> int
    decreases s.len(),
{
    if s.len() == 0 {
        -1
    } else if s[0].0 == key {
        0
    } else {
        let k = key_index(s.drop_first(), key);
        if k < 0 { -1 } else { k + 1 }
    }
}

proof fn lemma_key_index(s: Seq<(Seq<char>, u64)>, key: Seq<char>)
    ensures
        -1 <= key_index(s, key) < s.len(),
        key_index(s, key) >= 0 ==> s[key_index(s, key)].0 == key,
        key_index(s, key) >= 0 ==> forall|t: int| 0 <= t < key_index(s, key) ==> s[t].0 != key,
        key_index(s, key) < 0 ==> forall|t: int| 0 <= t < s.len() ==> s[t].0 != key,
    decreases s.len(),
{
    if s.len() > 0 {
        lemma_key_index(s.drop_first(), key);
        assert forall|t: int| 0 < t < s.len() implies s[t] == s.drop_first()[t - 1] by {}
    }
}

/// `key_index` is the first position holding the name.
proof fn lemma_key_index_is_first(s: Seq<(Seq<char>, u64)>, key: Seq<char>, j: int)
    requires
        -1 <= j < s.len(),
        j >= 0 ==> s[j].0 == key,
        forall|t: int| 0 <= t < s.len() && (j < 0 || t < j) ==> s[t].0 != key,
    ensures
        key_index(s, key) == j,
{
    lemma_key_index(s, key);
    let f = key_index(s, key);
    if f >= 0 && j >= 0 && f < j {
        assert(s[f].0 == key);
    } else if f >= 0 && j < 0 {
        assert(s[f].0 == key);
    } else if j >= 0 && (f < 0 || j < f) {
        assert(s[j].0 == key);
    }
}

/// The count of a name (0 when it has none).
pub open spec fn count_of(s: Seq<(Seq<char>, u64)>, key: Seq<char>) -> nat {
    let k = key_index(s, key);
    if k >= 0 {
        s[k].1 as nat
    } else {
        0
    }
}

/// The counts with one more for the name: its count goes up, or it is added
/// with a count of one.
pub open spec fn bumped(s: Seq<(Seq<char>, u64)>, key: Seq<char>) -> Seq<(Seq<char>, u64)> {
    let k = key_index(s, key);
    if k >= 0 {
        s.update(k, (key, (s[k].1 + 1) as u64))
    } else {
        s.push((key, 1u64))
    }
}

/// No count is above the total.
pub open spec fn counts_within(s: Seq<(Seq<char>, u64)>, total: u64) -> bool {
    forall|i: int| 0 <= i < s.len() ==> (#[trigger] s[i]).1 <= total
}

/// One more error of the name raises its count by one and leaves every other
/// name's count as it was.
pub proof fn law_bump_counts_once(s: Seq<(Seq<char>, u64)>, key: Seq<char>, other: Seq<char>)
    requires
        count_of(s, key) < u64::MAX,
    ensures
        count_of(bumped(s, key), key) == count_of(s, key) + 1,
        other != key ==> count_of(bumped(s, key), other) == count_of(s, other),
{
    lemma_key_index(s, key);
    lemma_key_index(s, other);
    let k = key_index(s, key);
    let b = bumped(s, key);
    if k >= 0 {
        lemma_key_index_is_first(b, key, k);
        if other != key {
            lemma_key_index_is_first(b, other, key_index(s, other));
        }
    } else {
        lemma_key_index_is_first(b, key, s.len() as int);
        if other != key {
            lemma_key_index_is_first(b, other, key_index(s, other));
        }
    }
}

fn bump_count(v: &mut Vec<(String, u64)>, key: &str, Ghost(total): Ghost<u64>)
    requires
        counts_within(count_views(old(v)@), total),
        total < u64::MAX,
    ensures
        count_views(final(v)@) == bumped(count_views(old(v)@), key@),
        counts_within(count_views(final(v)@), (total + 1) as u64),
{
    let ghost s = count_views(v@);
    proof {
        lemma_key_index(s, key@);
        assert(s == count_views(old(v)@));
    }
    let mut i: usize = 0;
    while i < v.len()
        invariant
            i <= v@.len(),
            s == count_views(v@),
            s.len() == v@.len(),
            forall|t: int| 0 <= t < i ==> s[t].0 != key@,
            counts_within(s, total),
            total < u64::MAX,
            s == count_views(old(v)@),
        decreases v.len() - i,
    {
        proof {
            assert(s[i as int] == (v@[i as int].0@, v@[i as int].1));
        }
        if str_eq(v[i].0.as_str(), key) {
            proof {
                lemma_key_index_is_first(s, key@, i as int);
                assert(s[i as int].1 <= total);
            }
            let c = v[i].1;
            v.set(i, (owned(key), c + 1));
            proof {
                assert(count_views(v@) =~= s.update(i as int, (key@, (c + 1) as u64)));
                assert(bumped(s, key@) == s.update(i as int, (key@, (c + 1) as u64)));
                assert forall|t: int| 0 <= t < count_views(v@).len() implies (#[trigger] count_views(v@)[t]).1 <= total + 1 by {
                    if t != i {
                        assert(count_views(v@)[t] == s[t]);
                    }
                }
            }
            return;
        }
        i = i + 1;
    }
    proof {
        lemma_key_index_is_first(s, key@, -1);
    }
    v.push((owned(key), 1));
    proof {
        assert(count_views(v@) =~= s.push((key@, 1u64)));
        assert forall|t: int| 0 <= t < count_views(v@).len() implies (#[trigger] count_views(v@)[t]).1 <= total + 1 by {
            if t < s.len() {
                assert(count_views(v@)[t] == s[t]);
            }
        }
    }
}

impl ErrorStatistics {
    /// No errors yet, last updated at `now_ms`.
    pub fn new(now_ms: i64) -> (r: ErrorStatistics)
        ensures
            r.wf(),
            r.total_errors == 0,
            r@.0.len() == 0 && r@.1.len() == 0 && r@.2.len() == 0,
            r.circuit_breaker_trips == 0,
            r.last_updated == now_ms,
    {
        let r = ErrorStatistics {
            total_errors: 0,
            errors_by_severity: Vec::new(),
            errors_by_category: Vec::new(),
            errors_by_component: Vec::new(),
            circuit_breaker_trips: 0,
            last_updated: now_ms,
        };
        proof {
            assert(count_views(r.errors_by_severity@) =~= Seq::<(Seq<char>, u64)>::empty());
            assert(count_views(r.errors_by_category@) =~= Seq::<(Seq<char>, u64)>::empty());
            assert(count_views(r.errors_by_component@) =~= Seq::<(Seq<char>, u64)>::empty());
        }
        r
    }

    /// The counts per severity, category and component.
    pub open spec fn view(&self) -> (Seq<(Seq<char>, u64)>, Seq<(Seq<char>, u64)>, Seq<(Seq<char>, u64)>) {
        (count_views(self.errors_by_severity@), count_views(self.errors_by_category@), count_views(self.errors_by_component@))
    }

    /// No count is above the total.
    pub open spec fn wf(&self) -> bool {
        &&& counts_within(self@.0, self.total_errors)
        &&& counts_within(self@.1, self.total_errors)
    }

    /// Records one error of the given severity and category names (as the
    /// error's `severity()` and `category()` name them): the total and the two
    /// counts each go up by one, and the time of the update is kept. The total
    /// must still fit in a `u64`.
    pub fn record_error(&mut self, severity: &str, category: &str, now_ms: i64)
        requires
            old(self).wf(),
            old(self).total_errors < u64::MAX,
        ensures
            final(self).wf(),
            final(self).total_errors == old(self).total_errors + 1,
            final(self)@.0 == bumped(old(self)@.0, severity@),
            final(self)@.1 == bumped(old(self)@.1, category@),
            final(self)@.2 == old(self)@.2,
            final(self).circuit_breaker_trips == old(self).circuit_breaker_trips,
            final(self).last_updated == now_ms,
    {
        let total = self.total_errors;
        bump_count(&mut self.errors_by_severity, severity, Ghost(total));
        bump_count(&mut self.errors_by_category, category, Ghost(total));
        self.total_errors = total + 1;
        self.last_updated = now_ms;
    }
}

/// Failures in a row make an agent fail quickly from the third on: one or two
/// do not, and each further failure keeps it so.
pub proof fn law_quick_failure_from_third(n: nat)
    ensures
        !quick_failure(0) && !quick_failure(1) && !quick_failure(2),
        quick_failure(3),
        quick_failure(n) ==> quick_failure(n + 1),
        quick_failure(n) <==> n >= 3,
{
}

} // verus!
