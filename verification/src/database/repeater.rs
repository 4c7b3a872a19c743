//! Repeater tab and repeater execution records.

use vstd::prelude::*;

verus! {

/// A repeater tab as stored in the database.
pub struct RepeaterTab {
    pub id: String,
    pub name: String,
    /// JSON-serialized request.
    pub request_template: String,
    pub target_agent_id: Option<String>,
    pub created_at: i64,
    pub updated_at: i64,
    pub is_active: bool,
}

/// One execution of a repeater request.
pub struct RepeaterExecution {
    pub id: String,
    pub tab_id: String,
    /// JSON-serialized request.
    pub request_data: String,
    /// JSON-serialized response.
    pub response_data: Option<String>,
    pub agent_id: String,
    pub executed_at: i64,
    pub duration_ms: Option<i64>,
    pub status_code: Option<i32>,
}

}
