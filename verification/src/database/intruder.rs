//! Intruder attack, result and payload-set records, and the batching
//! rule by which results are buffered before they are written.

use vstd::prelude::*;

verus! {

/// An intruder attack configuration as stored in the database.
pub struct IntruderAttack {
    pub id: String,
    pub name: String,
    /// Raw template with §markers§.
    pub request_template: String,
    /// sniper, battering_ram, pitchfork, cluster_bomb.
    pub attack_mode: String,
    /// JSON array of payload configurations.
    pub payload_sets: String,
    /// JSON array of agent ids.
    pub target_agents: String,
    /// round_robin, batch:N or load_balanced.
    pub distribution_strategy: String,
    pub created_at: i64,
    pub updated_at: i64,
    /// configured, running, completed, stopped.
    pub status: String,
}

/// One request of an attack and what came back.
pub struct IntruderResult {
    pub id: String,
    pub attack_id: String,
    pub request_data: String,
    pub response_data: Option<String>,
    pub agent_id: String,
    pub payload_values: String,
    pub executed_at: i64,
    pub duration_ms: Option<i64>,
    pub status_code: Option<i32>,
    pub response_length: Option<i64>,
    pub is_highlighted: bool,
}

/// A stored payload set.
pub struct PayloadSet {
    pub id: String,
    pub name: String,
    /// wordlist, number_range, custom.
    pub payload_type: String,
    /// JSON configuration.
    pub configuration: String,
    pub created_at: i64,
}

/// The number of results buffered before a flush is due.
pub const RESULT_BATCH_SIZE: usize = 1000;

/// Results waiting to be written, in arrival order.
pub struct ResultBatch {
    pub pending: Vec<IntruderResult>,
    pub batch_size: usize,
}

impl ResultBatch {
    /// An empty buffer that asks for a flush every `RESULT_BATCH_SIZE` results.
    pub fn new() -> (r: ResultBatch)
        ensures
            r.pending@.len() == 0,
            r.batch_size == RESULT_BATCH_SIZE,
    {
        ResultBatch { pending: Vec::new(), batch_size: RESULT_BATCH_SIZE }
    }

    /// Appends a result; returns whether the buffer is now full and must be flushed.
    pub fn add_result(&mut self, result: IntruderResult) -> (flush_due: bool)
        ensures
            final(self).pending@ == old(self).pending@.push(result),
            final(self).batch_size == old(self).batch_size,
            flush_due == (final(self).pending@.len() >= old(self).batch_size),
    {
        self.pending.push(result);
        self.pending.len() >= self.batch_size
    }

    /// Takes every buffered result, oldest first, leaving the buffer empty.
    pub fn drain(&mut self) -> (taken: Vec<IntruderResult>)
        ensures
            taken@ == old(self).pending@,
            final(self).pending@.len() == 0,
            final(self).batch_size == old(self).batch_size,
    {
        let mut taken: Vec<IntruderResult> = Vec::new();
        std::mem::swap(&mut taken, &mut self.pending);
        taken
    }
}

}
