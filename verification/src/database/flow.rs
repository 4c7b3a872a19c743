//! Flow profile and flow execution records.

use vstd::prelude::*;

verus! {

/// Flow profile data as stored in the database.
pub struct FlowProfileRow {
    pub id: String,
    pub name: String,
    pub flow_type: String,
    pub start_url: String,
    /// JSON array of steps.
    pub steps: String,
    /// JSON metadata.
    pub meta: Option<String>,
    pub created_at: i64,
    pub updated_at: i64,
    pub agent_id: Option<String>,
    pub status: String,
}

/// One run of a flow profile.
pub struct FlowExecutionRow {
    pub id: String,
    pub profile_id: String,
    pub agent_id: String,
    pub started_at: i64,
    pub completed_at: Option<i64>,
    pub status: String,
    pub error_message: Option<String>,
    pub steps_completed: i64,
    pub total_steps: i64,
    pub session_cookies: Option<String>,
    pub extracted_data: Option<String>,
}

}
