//! API types for flow profiles, flow executions and flow recording.

use vstd::prelude::*;
use crate::database::flow::{FlowExecutionRow, FlowProfileRow};
use crate::text::{owned, str_eq};

verus! {

/// Kind of a flow profile.
#[derive(Clone, Copy, Debug, PartialEq, Eq, Structural)]
pub enum FlowTypeGql {
    Login,
    Checkout,
    FormSubmission,
    Navigation,
    Custom,
}

/// The flow type a stored name stands for (anything unknown is `Custom`).
pub open spec fn flow_type_of(s: Seq<char>) -> FlowTypeGql {
    if s == "Login"@ {
        FlowTypeGql::Login
    } else if s == "Checkout"@ {
        FlowTypeGql::Checkout
    } else if s == "FormSubmission"@ {
        FlowTypeGql::FormSubmission
    } else if s == "Navigation"@ {
        FlowTypeGql::Navigation
    } else {
        FlowTypeGql::Custom
    }
}

/// The stored name of a flow type.
pub open spec fn flow_type_name(t: FlowTypeGql) -> Seq<char> {
    match t {
        FlowTypeGql::Login => "Login"@,
        FlowTypeGql::Checkout => "Checkout"@,
        FlowTypeGql::FormSubmission => "FormSubmission"@,
        FlowTypeGql::Navigation => "Navigation"@,
        FlowTypeGql::Custom => "Custom"@,
    }
}

impl FlowTypeGql {
    /// Reads a stored flow type name.
    pub fn from_name(s: &str) -> (r: FlowTypeGql)
        ensures
            r == flow_type_of(s@),
    {
        if str_eq(s, "Login") {
            FlowTypeGql::Login
        } else if str_eq(s, "Checkout") {
            FlowTypeGql::Checkout
        } else if str_eq(s, "FormSubmission") {
            FlowTypeGql::FormSubmission
        } else if str_eq(s, "Navigation") {
            FlowTypeGql::Navigation
        } else {
            FlowTypeGql::Custom
        }
    }

    /// The stored name of this flow type.
    pub fn name(self) -> (r: String)
        ensures
            r@ == flow_type_name(self),
    {
        match self {
            FlowTypeGql::Login => owned("Login"),
            FlowTypeGql::Checkout => owned("Checkout"),
            FlowTypeGql::FormSubmission => owned("FormSubmission"),
            FlowTypeGql::Navigation => owned("Navigation"),
            FlowTypeGql::Custom => owned("Custom"),
        }
    }
}

/// Status of a flow profile.
#[derive(Clone, Copy, Debug, PartialEq, Eq, Structural)]
pub enum ProfileStatusGql {
    Active,
    Archived,
    Failed,
    Recording,
}

/// The profile status a stored name stands for (anything unknown is `Active`).
pub open spec fn profile_status_of(s: Seq<char>) -> ProfileStatusGql {
    if s == "Archived"@ {
        ProfileStatusGql::Archived
    } else if s == "Failed"@ {
        ProfileStatusGql::Failed
    } else if s == "Recording"@ {
        ProfileStatusGql::Recording
    } else {
        ProfileStatusGql::Active
    }
}

/// The stored name of a profile status.
pub open spec fn profile_status_name(t: ProfileStatusGql) -> Seq<char> {
    match t {
        ProfileStatusGql::Active => "Active"@,
        ProfileStatusGql::Archived => "Archived"@,
        ProfileStatusGql::Failed => "Failed"@,
        ProfileStatusGql::Recording => "Recording"@,
    }
}

impl ProfileStatusGql {
    /// Reads a stored profile status name.
    pub fn from_name(s: &str) -> (r: ProfileStatusGql)
        ensures
            r == profile_status_of(s@),
    {
        if str_eq(s, "Archived") {
            ProfileStatusGql::Archived
        } else if str_eq(s, "Failed") {
            ProfileStatusGql::Failed
        } else if str_eq(s, "Recording") {
            ProfileStatusGql::Recording
        } else {
            ProfileStatusGql::Active
        }
    }

    /// The stored name of this status.
    pub fn name(self) -> (r: String)
        ensures
            r@ == profile_status_name(self),
    {
        match self {
            ProfileStatusGql::Active => owned("Active"),
            ProfileStatusGql::Archived => owned("Archived"),
            ProfileStatusGql::Failed => owned("Failed"),
            ProfileStatusGql::Recording => owned("Recording"),
        }
    }
}

/// Status of a flow execution.
#[derive(Clone, Copy, Debug, PartialEq, Eq, Structural)]
pub enum ExecutionStatusGql {
    Running,
    Success,
    Failed,
    Cancelled,
}

/// The execution status a stored name stands for (anything unknown is `Running`).
pub open spec fn execution_status_of(s: Seq<char>) -> ExecutionStatusGql {
    if s == "success"@ {
        ExecutionStatusGql::Success
    } else if s == "failed"@ {
        ExecutionStatusGql::Failed
    } else if s == "cancelled"@ {
        ExecutionStatusGql::Cancelled
    } else {
        ExecutionStatusGql::Running
    }
}

impl ExecutionStatusGql {
    /// Reads a stored execution status name.
    pub fn from_name(s: &str) -> (r: ExecutionStatusGql)
        ensures
            r == execution_status_of(s@),
    {
        if str_eq(s, "success") {
            ExecutionStatusGql::Success
        } else if str_eq(s, "failed") {
            ExecutionStatusGql::Failed
        } else if str_eq(s, "cancelled") {
            ExecutionStatusGql::Cancelled
        } else {
            ExecutionStatusGql::Running
        }
    }
}

/// Writing a flow type down and reading it back gives the same type.
pub proof fn law_flow_type_round_trip(t: FlowTypeGql)
    ensures
        flow_type_of(flow_type_name(t)) == t,
{
    reveal_strlit("Login");
    reveal_strlit("Checkout");
    reveal_strlit("FormSubmission");
    reveal_strlit("Navigation");
    reveal_strlit("Custom");
    assert("Login"@.len() == 5);
    assert("Checkout"@.len() == 8);
    assert("FormSubmission"@.len() == 14);
    assert("Navigation"@.len() == 10);
    assert("Custom"@.len() == 6);
}

/// Writing a profile status down and reading it back gives the same status.
pub proof fn law_profile_status_round_trip(t: ProfileStatusGql)
    ensures
        profile_status_of(profile_status_name(t)) == t,
{
    reveal_strlit("Active");
    reveal_strlit("Archived");
    reveal_strlit("Failed");
    reveal_strlit("Recording");
    assert("Active"@.len() == 6);
    assert("Archived"@.len() == 8);
    assert("Failed"@.len() == 6);
    assert("Recording"@.len() == 9);
    assert("Active"@[0] == 'A' && "Archived"@[1] == 'r');
}

/// The number of elements of the JSON array a text holds, if it holds one (as
/// `serde_json` reads it).
pub uninterp spec fn json_array_count(s: Seq<char>) -> Option<nat>;

/// `serde_json::from_str::<Vec<serde_json::Value>>` then the length: the result
/// is named by `json_array_count`.
#[verifier::external_body]
pub fn json_array_len(s: &str) -> (r: Option<usize>)
    ensures
        match r {
            Some(n) => json_array_count(s@) == Some(n as nat),
            None => json_array_count(s@) is None,
        },
{
    match serde_json::from_str::<Vec<serde_json::Value>>(s) {
        Ok(v) => Some(v.len()),
        Err(_) => None,
    }
}

/// A flow profile for the API.
#[derive(Debug)]
pub struct FlowProfileGql {
    pub id: String,
    pub name: String,
    pub flow_type: FlowTypeGql,
    pub start_url: String,
    /// JSON array of steps.
    pub steps: String,
    pub meta: Option<String>,
    pub created_at: i64,
    pub updated_at: i64,
    pub agent_id: Option<String>,
    pub status: ProfileStatusGql,
    /// Number of steps (0 when the steps do not parse as a JSON array).
    pub step_count: i32,
}

impl FlowProfileGql {
    /// The API view of a stored flow profile.
    pub fn from_row(row: FlowProfileRow) -> (r: FlowProfileGql)
        ensures
            r.id == row.id && r.name == row.name && r.start_url == row.start_url && r.steps == row.steps && r.meta
                == row.meta && r.created_at == row.created_at && r.updated_at == row.updated_at && r.agent_id
                == row.agent_id,
            r.flow_type == flow_type_of(row.flow_type@),
            r.status == profile_status_of(row.status@),
            r.step_count == (match json_array_count(row.steps@) {
                Some(n) => n as i32,
                None => 0,
            }),
    {
        let step_count: i32 = match json_array_len(row.steps.as_str()) {
            Some(n) => n as i32,
            None => 0,
        };
        let flow_type = FlowTypeGql::from_name(row.flow_type.as_str());
        let status = ProfileStatusGql::from_name(row.status.as_str());
        FlowProfileGql {
            id: row.id,
            name: row.name,
            flow_type,
            start_url: row.start_url,
            steps: row.steps,
            meta: row.meta,
            created_at: row.created_at,
            updated_at: row.updated_at,
            agent_id: row.agent_id,
            status,
            step_count,
        }
    }
}

/// A flow execution for the API.
#[derive(Debug)]
pub struct FlowExecutionGql {
    pub id: String,
    pub profile_id: String,
    pub agent_id: String,
    pub started_at: i64,
    pub completed_at: Option<i64>,
    pub status: ExecutionStatusGql,
    pub error_message: Option<String>,
    pub steps_completed: i64,
    pub total_steps: i64,
    pub session_cookies: Option<String>,
    pub extracted_data: Option<String>,
    /// Completion time minus start time, once completed.
    pub duration_ms: Option<i64>,
}

impl FlowExecutionGql {
    /// The API view of a stored flow execution.
    pub fn from_row(row: FlowExecutionRow) -> (r: FlowExecutionGql)
        requires
            row.completed_at matches Some(c) ==> i64::MIN <= c - row.started_at <= i64::MAX,
        ensures
            r.id == row.id && r.profile_id == row.profile_id && r.agent_id == row.agent_id && r.started_at
                == row.started_at && r.completed_at == row.completed_at && r.error_message == row.error_message
                && r.steps_completed == row.steps_completed && r.total_steps == row.total_steps && r.session_cookies
                == row.session_cookies && r.extracted_data == row.extracted_data,
            r.status == execution_status_of(row.status@),
            r.duration_ms == (match row.completed_at {
                Some(c) => Some((c - row.started_at) as i64),
                None => None,
            }),
    {
        let duration_ms = match row.completed_at {
            Some(c) => Some(c - row.started_at),
            None => None,
        };
        let status = ExecutionStatusGql::from_name(row.status.as_str());
        FlowExecutionGql {
            id: row.id,
            profile_id: row.profile_id,
            agent_id: row.agent_id,
            started_at: row.started_at,
            completed_at: row.completed_at,
            status,
            error_message: row.error_message,
            steps_completed: row.steps_completed,
            total_steps: row.total_steps,
            session_cookies: row.session_cookies,
            extracted_data: row.extracted_data,
            duration_ms,
        }
    }
}

/// Outcome of a flow profile operation.
#[derive(Debug)]
pub struct FlowOperationResult {
    pub success: bool,
    pub message: String,
    pub profile_id: Option<String>,
}

/// Input for creating a flow profile.
#[derive(Debug)]
pub struct CreateFlowProfileInput {
    pub name: String,
    pub flow_type: FlowTypeGql,
    pub start_url: String,
    pub agent_id: Option<String>,
}

/// Input for updating a flow profile.
#[derive(Debug)]
pub struct UpdateFlowProfileInput {
    pub name: Option<String>,
    pub status: Option<ProfileStatusGql>,
}

/// Input for starting a recording.
#[derive(Debug)]
pub struct StartRecordingInput {
    pub name: String,
    pub start_url: String,
    pub flow_type: FlowTypeGql,
    pub agent_id: Option<String>,
}

/// Input for replaying a flow.
#[derive(Debug)]
pub struct ReplayFlowInput {
    pub profile_id: String,
    pub agent_id: String,
    /// JSON object of variable substitutions.
    pub variables: Option<String>,
    /// Show the browser window.
    pub headed: Option<bool>,
}

/// State of the recording session for the API.
#[derive(Clone, Copy, Debug, PartialEq, Eq, Structural)]
pub enum RecordingStateGql {
    Idle,
    Recording,
    Paused,
    Completed,
    Failed,
}

impl Default for RecordingStateGql {
    fn default() -> (r: RecordingStateGql)
        ensures
            r == RecordingStateGql::Idle,
    {
        RecordingStateGql::Idle
    }
}

/// The recording session for the API.
#[derive(Debug)]
pub struct RecordingSessionGql {
    pub profile_id: Option<String>,
    pub state: RecordingStateGql,
    pub event_count: i32,
    pub current_url: Option<String>,
    pub started_at: Option<i64>,
    pub error: Option<String>,
}

impl Default for RecordingSessionGql {
    fn default() -> (r: RecordingSessionGql)
        ensures
            r.profile_id is None && r.state == RecordingStateGql::Idle && r.event_count == 0 && r.current_url is None
                && r.started_at is None && r.error is None,
    {
        RecordingSessionGql {
            profile_id: None,
            state: RecordingStateGql::Idle,
            event_count: 0,
            current_url: None,
            started_at: None,
            error: None,
        }
    }
}

/// Outcome of a flow replay.
#[derive(Debug)]
pub struct FlowReplayResult {
    pub success: bool,
    pub execution_id: Option<String>,
    pub error: Option<String>,
    pub session_cookies: Option<String>,
}

/// Input for stopping a recording.
#[derive(Debug)]
pub struct StopRecordingInput {
    /// Whether to keep the recording.
    pub save: bool,
}

} // verus!
