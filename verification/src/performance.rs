//! Backpressure levels and what they mean for a new request.

use vstd::prelude::*;
use tokio::sync::Semaphore;
use crate::engine::{AgentInfo, AgentStatus, AttackError};
use crate::resource_manager::{free_permits, give_permits, max_permits, new_semaphore, semaphore_closed, take_permits};
use crate::text::{owned, str_eq};

verus! {

/// How strongly requests are held back.
#[derive(Clone, Copy, Debug, PartialEq, Eq, Structural)]
pub enum BackpressureSeverity {
    /// Slight reduction in concurrency.
    Low,
    /// Moderate reduction and queuing.
    Medium,
    /// Significant throttling.
    High,
    /// Emergency throttling: new requests are rejected.
    Critical,
}

/// Why backpressure is on.
#[derive(Clone, Copy, Debug, PartialEq, Eq, Structural)]
pub enum BackpressureReason {
    MemoryPressure,
    CpuOverload,
    AgentOverload,
    NetworkCongestion,
    ErrorRateHigh,
    ResponseTimeHigh,
    SystemResourceExhaustion,
}

/// The wait a new request takes under backpressure: none when it is off, 100,
/// 500 or 1000 ms for low, medium and high severity.
pub open spec fn throttle_delay_ms(active: bool, s: BackpressureSeverity) -> u64 {
    if !active {
        0
    } else {
        match s {
            BackpressureSeverity::Low => 100,
            BackpressureSeverity::Medium => 500,
            BackpressureSeverity::High => 1000,
            BackpressureSeverity::Critical => 0,
        }
    }
}

/// Whether a new request may go ahead under the current backpressure, and after
/// how long a wait; under critical backpressure it is rejected.
pub fn request_admission(active: bool, severity: BackpressureSeverity) -> (r: Result<u64, AttackError>)
    ensures
        (active && severity == BackpressureSeverity::Critical) ==> (r matches Err(AttackError::NetworkError { details })
            && details@ == "System under critical load, requests rejected"@),
        !(active && severity == BackpressureSeverity::Critical) ==> r == Ok::<u64, AttackError>(
            throttle_delay_ms(active, severity),
        ),
{
    if !active {
        return Ok(0);
    }
    match severity {
        BackpressureSeverity::Critical => Err(
            AttackError::NetworkError { details: owned("System under critical load, requests rejected") },
        ),
        BackpressureSeverity::High => Ok(1000),
        BackpressureSeverity::Medium => Ok(500),
        BackpressureSeverity::Low => Ok(100),
    }
}

/// The reason for backpressure from which resources are under pressure (both:
/// exhaustion; only memory: memory pressure; otherwise CPU overload).
pub fn backpressure_reason(memory_pressure: bool, cpu_pressure: bool) -> (r: BackpressureReason)
    ensures
        r == (if memory_pressure && cpu_pressure {
            BackpressureReason::SystemResourceExhaustion
        } else if memory_pressure {
            BackpressureReason::MemoryPressure
        } else {
            BackpressureReason::CpuOverload
        }),
{
    if memory_pressure && cpu_pressure {
        BackpressureReason::SystemResourceExhaustion
    } else if memory_pressure {
        BackpressureReason::MemoryPressure
    } else {
        BackpressureReason::CpuOverload
    }
}

/// Concurrency control of one agent: the permits of its concurrency limit and
/// how many of its requests are running.
pub struct AgentConcurrencyControl {
    pub agent_id: String,
    semaphore: Semaphore,
    pub max_permits: u32,
    pub active_requests: u32,
}

/// A control as (agent id, limit, running requests).
pub closed spec fn slot_of(c: AgentConcurrencyControl) -> (Seq<char>, u32, u32) {
    (c.agent_id@, c.max_permits, c.active_requests)
}

/// Position of the first control of the agent, or -1.
pub open spec fn slot_index(s: Seq<(Seq<char>, u32, u32)>, id: Seq<char>) -> int
    decreases s.len(),
{
    if s.len() == 0 {
        -1
    } else if s[0].0 == id {
        0
    } else {
        let k = slot_index(s.drop_first(), id);
        if k < 0 { -1 } else { k + 1 }
    }
}

proof fn lemma_slot_index(s: Seq<(Seq<char>, u32, u32)>, id: Seq<char>)
    ensures
        -1 <= slot_index(s, id) < s.len(),
        slot_index(s, id) >= 0 ==> s[slot_index(s, id)].0 == id,
        slot_index(s, id) >= 0 ==> forall|t: int| 0 <= t < slot_index(s, id) ==> s[t].0 != id,
        slot_index(s, id) < 0 ==> forall|t: int| 0 <= t < s.len() ==> s[t].0 != id,
    decreases s.len(),
{
    if s.len() > 0 {
        lemma_slot_index(s.drop_first(), id);
        assert forall|t: int| 0 < t < s.len() implies s[t] == s.drop_first()[t - 1] by {}
    }
}

/// The controls after (re)starting the agent's control with `max` free permits
/// and nothing running: an existing control of the agent is replaced, else one
/// is added.
pub open spec fn upsert_slot(s: Seq<(Seq<char>, u32, u32)>, id: Seq<char>, max: u32) -> Seq<(Seq<char>, u32, u32)> {
    let k = slot_index(s, id);
    if k >= 0 {
        s.update(k, (id, max, 0u32))
    } else {
        s.push((id, max, 0u32))
    }
}

/// The controls after initializing the agents in order: each online agent gets
/// a fresh control with `max` permits; offline agents are left out.
pub open spec fn initialized(s: Seq<(Seq<char>, u32, u32)>, agents: Seq<AgentInfo>, max: u32) -> Seq<(Seq<char>, u32, u32)>
    decreases agents.len(),
{
    if agents.len() == 0 {
        s
    } else {
        let s1 = initialized(s, agents.drop_last(), max);
        let a = agents.last();
        if a.status == AgentStatus::Online {
            upsert_slot(s1, a.id@, max)
        } else {
            s1
        }
    }
}

/// The controls after a request of the agent is granted: its running count
/// goes up by one.
pub open spec fn with_started(s: Seq<(Seq<char>, u32, u32)>, id: Seq<char>) -> Seq<(Seq<char>, u32, u32)> {
    let k = slot_index(s, id);
    s.update(k, (s[k].0, s[k].1, (s[k].2 + 1) as u32))
}

/// The controls after a request of the agent completes: its running count drops
/// by one, unless the agent has no control or nothing of it is running.
pub open spec fn with_completed(s: Seq<(Seq<char>, u32, u32)>, id: Seq<char>) -> Seq<(Seq<char>, u32, u32)> {
    let k = slot_index(s, id);
    if k >= 0 && s[k].2 > 0 {
        s.update(k, (s[k].0, s[k].1, (s[k].2 - 1) as u32))
    } else {
        s
    }
}

/// A request of the agent is granted: a global permit is free, the agent has a
/// control, and fewer of its requests run than its limit.
pub open spec fn can_grant(s: Seq<(Seq<char>, u32, u32)>, id: Seq<char>, in_use: u32, limit: u32) -> bool {
    let k = slot_index(s, id);
    &&& in_use < limit
    &&& k >= 0
    &&& s[k].2 < s[k].1
}

proof fn lemma_slot_index_same_ids(s: Seq<(Seq<char>, u32, u32)>, id: Seq<char>, k: int, x: (Seq<char>, u32, u32))
    requires
        0 <= k < s.len(),
        slot_index(s, id) == k,
        x.0 == s[k].0,
    ensures
        slot_index(s.update(k, x), id) == k,
{
    lemma_slot_index(s, id);
    lemma_slot_index(s.update(k, x), id);
    let j = slot_index(s.update(k, x), id);
    if j < 0 {
        assert(s.update(k, x)[k].0 == id);
    } else if j < k {
        assert(s[j].0 == id);
    } else if j > k {
        assert(s.update(k, x)[k].0 == id);
    }
}

/// A completed request undoes a granted one: the agents' running counts and
/// the global count of requests are back where they were.
pub proof fn law_complete_undoes_acquire(s: Seq<(Seq<char>, u32, u32)>, id: Seq<char>, in_use: u32, limit: u32)
    requires
        can_grant(s, id, in_use, limit),
    ensures
        with_completed(with_started(s, id), id) == s,
        in_use + 1 > 0 && (in_use + 1) - 1 == in_use,
{
    let k = slot_index(s, id);
    lemma_slot_index(s, id);
    let s1 = with_started(s, id);
    lemma_slot_index_same_ids(s, id, k, (s[k].0, s[k].1, (s[k].2 + 1) as u32));
    assert(with_completed(s1, id) =~= s);
}

/// Per-agent and global limits on concurrent requests: a request holds one
/// permit of its agent and one of the global pool until it completes.
pub struct AgentConcurrency {
    controls: Vec<AgentConcurrencyControl>,
    global: Semaphore,
    global_active: u32,
    per_agent_max: u32,
    global_max: u32,
}

impl AgentConcurrency {
    /// The agents' controls as (agent id, limit, running requests).
    pub closed spec fn slots(&self) -> Seq<(Seq<char>, u32, u32)> {
        self.controls@.map_values(|c: AgentConcurrencyControl| slot_of(c))
    }

    /// Requests holding a global permit.
    pub closed spec fn global_in_use(&self) -> u32 {
        self.global_active
    }

    /// The global limit.
    pub closed spec fn global_limit(&self) -> u32 {
        self.global_max
    }

    /// The limit each agent's control is started with.
    pub closed spec fn agent_limit(&self) -> u32 {
        self.per_agent_max
    }

    /// Each semaphore is open and its free permits plus the requests holding
    /// one make up its limit.
    pub closed spec fn wf(&self) -> bool {
        &&& forall|i: int|
            0 <= i < self.controls@.len() ==> {
                &&& !semaphore_closed(#[trigger] self.controls@[i].semaphore)
                &&& free_permits(self.controls@[i].semaphore) + self.controls@[i].active_requests
                    == self.controls@[i].max_permits
                &&& self.controls@[i].max_permits <= max_permits()
            }
        &&& !semaphore_closed(self.global)
        &&& free_permits(self.global) + self.global_active == self.global_max
        &&& self.global_max <= max_permits()
        &&& self.per_agent_max <= max_permits()
    }

    /// No agent controls yet; each agent will get `max_concurrent_per_agent`
    /// permits and all agents together `global_max_concurrent` (tokio's
    /// semaphore refuses more than `max_permits()`).
    pub fn new(max_concurrent_per_agent: u32, global_max_concurrent: u32) -> (r: AgentConcurrency)
        requires
            max_concurrent_per_agent <= max_permits(),
            global_max_concurrent <= max_permits(),
        ensures
            r.wf(),
            r.slots() == Seq::<(Seq<char>, u32, u32)>::empty(),
            r.global_in_use() == 0,
            r.global_limit() == global_max_concurrent,
            r.agent_limit() == max_concurrent_per_agent,
    {
        let r = AgentConcurrency {
            controls: Vec::new(),
            global: new_semaphore(global_max_concurrent as usize),
            global_active: 0,
            per_agent_max: max_concurrent_per_agent,
            global_max: global_max_concurrent,
        };
        proof {
            assert(r.slots() =~= Seq::<(Seq<char>, u32, u32)>::empty());
        }
        r
    }

    fn find(&self, id: &str) -> (k: Option<usize>)
        ensures
            match k {
                Some(i) => i == slot_index(self.slots(), id@) && i < self.controls@.len(),
                None => slot_index(self.slots(), id@) < 0,
            },
    {
        let ghost s = self.slots();
        proof {
            lemma_slot_index(s, id@);
        }
        let mut i: usize = 0;
        while i < self.controls.len()
            invariant
                i <= self.controls@.len(),
                s == self.slots(),
                s.len() == self.controls@.len(),
                forall|t: int| 0 <= t < i ==> s[t].0 != id@,
                -1 <= slot_index(s, id@) < s.len(),
                slot_index(s, id@) >= 0 ==> s[slot_index(s, id@)].0 == id@,
                slot_index(s, id@) >= 0 ==> forall|t: int| 0 <= t < slot_index(s, id@) ==> s[t].0 != id@,
                slot_index(s, id@) < 0 ==> forall|t: int| 0 <= t < s.len() ==> s[t].0 != id@,
            decreases self.controls.len() - i,
        {
            proof {
                assert(s[i as int] == slot_of(self.controls@[i as int]));
            }
            if str_eq(self.controls[i].agent_id.as_str(), id) {
                proof {
                    let f = slot_index(s, id@);
                    assert(f >= 0);
                    if f < i {
                        assert(s[f].0 == id@);
                    }
                }
                return Some(i);
            }
            i = i + 1;
        }
        None
    }

    /// Gives each online agent a fresh control with the per-agent limit,
    /// replacing one it had; offline agents get none.
    pub fn initialize_agents(&mut self, agents: &Vec<AgentInfo>)
        requires
            old(self).wf(),
        ensures
            final(self).wf(),
            final(self).slots() == initialized(old(self).slots(), agents@, old(self).agent_limit()),
            final(self).global_in_use() == old(self).global_in_use(),
            final(self).global_limit() == old(self).global_limit(),
            final(self).agent_limit() == old(self).agent_limit(),
    {
        let ghost s0 = self.slots();
        let max = self.per_agent_max;
        let mut i: usize = 0;
        proof {
            assert(agents@.take(0) =~= Seq::<AgentInfo>::empty());
        }
        while i < agents.len()
            invariant
                i <= agents@.len(),
                self.wf(),
                max == self.per_agent_max,
                self.slots() == initialized(s0, agents@.take(i as int), max),
                self.global_active == old(self).global_active,
                self.global_max == old(self).global_max,
                self.per_agent_max == old(self).per_agent_max,
            decreases agents.len() - i,
        {
            proof {
                assert(agents@.take(i + 1).drop_last() =~= agents@.take(i as int));
                assert(agents@.take(i + 1).last() == agents@[i as int]);
            }
            let a = &agents[i];
            if a.status == AgentStatus::Online {
                let ghost before = self.slots();
                let control = AgentConcurrencyControl {
                    agent_id: a.id.clone(),
                    semaphore: new_semaphore(max as usize),
                    max_permits: max,
                    active_requests: 0,
                };
                match self.find(a.id.as_str()) {
                    Some(k) => {
                        self.controls.set(k, control);
                        proof {
                            assert(self.slots() =~= before.update(k as int, (a.id@, max, 0u32)));
                        }
                    },
                    None => {
                        self.controls.push(control);
                        proof {
                            assert(self.slots() =~= before.push((a.id@, max, 0u32)));
                        }
                    },
                }
            }
            i = i + 1;
        }
        proof {
            assert(agents@.take(agents@.len() as int) =~= agents@);
        }
    }

    /// Number of agents with a control.
    pub fn control_count(&self) -> (r: usize)
        ensures
            r == self.slots().len(),
    {
        self.controls.len()
    }

    /// The agent has a control.
    pub fn has_control(&self, agent_id: &str) -> (r: bool)
        ensures
            r == (slot_index(self.slots(), agent_id@) >= 0),
    {
        self.find(agent_id).is_some()
    }

    /// Takes a global permit and one of the agent's for a new request: `Ok(true)`
    /// when both were free (the agent's running count goes up), `Ok(false)` when
    /// the global or the agent's limit is reached (nothing changes; the caller
    /// waits and asks again), and an unavailable-agent error, with nothing
    /// changed, when the agent has no control.
    pub fn acquire_request_permit(&mut self, agent_id: &str) -> (r: Result<bool, AttackError>)
        requires
            old(self).wf(),
        ensures
            final(self).wf(),
            final(self).global_limit() == old(self).global_limit(),
            final(self).agent_limit() == old(self).agent_limit(),
            ({
                let s = old(self).slots();
                let k = slot_index(s, agent_id@);
                if old(self).global_in_use() >= old(self).global_limit() {
                    r == Ok::<bool, AttackError>(false) && final(self).slots() == s
                        && final(self).global_in_use() == old(self).global_in_use()
                } else if k < 0 {
                    &&& r matches Err(AttackError::AgentUnavailable { agent_id: a }) && a@ == agent_id@
                    &&& final(self).slots() == s
                    &&& final(self).global_in_use() == old(self).global_in_use()
                } else if s[k].2 >= s[k].1 {
                    r == Ok::<bool, AttackError>(false) && final(self).slots() == s
                        && final(self).global_in_use() == old(self).global_in_use()
                } else {
                    &&& r == Ok::<bool, AttackError>(true)
                    &&& final(self).slots() == with_started(s, agent_id@)
                    &&& final(self).global_in_use() == old(self).global_in_use() + 1
                }
            }),
    {
        let ghost s = self.slots();
        if !take_permits(&mut self.global, 1) {
            return Ok(false);
        }
        let k = match self.find(agent_id) {
            Some(k) => k,
            None => {
                give_permits(&mut self.global, 1);
                return Err(AttackError::AgentUnavailable { agent_id: owned(agent_id) });
            },
        };
        proof {
            assert(s[k as int] == slot_of(self.controls@[k as int]));
        }
        let mut c = self.controls.remove(k);
        if !take_permits(&mut c.semaphore, 1) {
            self.controls.insert(k, c);
            give_permits(&mut self.global, 1);
            proof {
                assert(self.slots() =~= s);
                assert forall|i: int| 0 <= i < self.controls@.len() implies {
                    &&& !semaphore_closed(#[trigger] self.controls@[i].semaphore)
                    &&& free_permits(self.controls@[i].semaphore) + self.controls@[i].active_requests
                        == self.controls@[i].max_permits
                    &&& self.controls@[i].max_permits <= max_permits()
                } by {
                    if i != k {
                        assert(self.controls@[i] == old(self).controls@[i]);
                    }
                }
            }
            return Ok(false);
        }
        c.active_requests = c.active_requests + 1;
        self.controls.insert(k, c);
        self.global_active = self.global_active + 1;
        proof {
            assert(self.slots() =~= s.update(k as int, (s[k as int].0, s[k as int].1, (s[k as int].2 + 1) as u32)));
            assert forall|i: int| 0 <= i < self.controls@.len() implies {
                &&& !semaphore_closed(#[trigger] self.controls@[i].semaphore)
                &&& free_permits(self.controls@[i].semaphore) + self.controls@[i].active_requests
                    == self.controls@[i].max_permits
                &&& self.controls@[i].max_permits <= max_permits()
            } by {
                if i != k {
                    assert(self.controls@[i] == old(self).controls@[i]);
                }
            }
        }
        Ok(true)
    }

    /// A request of the agent has finished: it gives back its agent permit (the
    /// running count drops, not below zero) and its global permit.
    pub fn complete_request(&mut self, agent_id: &str)
        requires
            old(self).wf(),
        ensures
            final(self).wf(),
            final(self).global_limit() == old(self).global_limit(),
            final(self).agent_limit() == old(self).agent_limit(),
            final(self).global_in_use() == (if old(self).global_in_use() > 0 {
                (old(self).global_in_use() - 1) as u32
            } else {
                0u32
            }),
            final(self).slots() == with_completed(old(self).slots(), agent_id@),
    {
        let ghost s = self.slots();
        if self.global_active > 0 {
            give_permits(&mut self.global, 1);
            self.global_active = self.global_active - 1;
        }
        let ghost mid = self.controls@;
        proof {
            assert(mid == old(self).controls@);
            assert(free_permits(self.global) + self.global_active == self.global_max);
        }
        match self.find(agent_id) {
            Some(k) => {
                proof {
                    assert(s[k as int] == slot_of(self.controls@[k as int]));
                }
                if self.controls[k].active_requests > 0 {
                    let mut c = self.controls.remove(k);
                    give_permits(&mut c.semaphore, 1);
                    c.active_requests = c.active_requests - 1;
                    self.controls.insert(k, c);
                    proof {
                        assert(self.slots() =~= s.update(k as int, (s[k as int].0, s[k as int].1, (s[k as int].2 - 1) as u32)));
                        assert forall|i: int| 0 <= i < self.controls@.len() implies {
                            &&& !semaphore_closed(#[trigger] self.controls@[i].semaphore)
                            &&& free_permits(self.controls@[i].semaphore) + self.controls@[i].active_requests
                                == self.controls@[i].max_permits
                            &&& self.controls@[i].max_permits <= max_permits()
                        } by {
                            if i != k {
                                assert(self.controls@[i] == mid[i]);
                            }
                        }
                    }
                } else {
                    proof {
                        assert(self.controls@ == mid);
                        assert(self.slots() =~= s);
                    }
                }
            },
            None => {
                proof {
                    assert(self.controls@ == mid);
                    assert(self.slots() =~= s);
                }
            },
        }
    }
}

/// No agent runs more requests than its limit, and no more requests hold a
/// global permit than the global limit.
pub proof fn law_within_limits(c: AgentConcurrency)
    requires
        c.wf(),
    ensures
        forall|i: int| 0 <= i < c.slots().len() ==> (#[trigger] c.slots()[i]).2 <= c.slots()[i].1,
        c.global_in_use() <= c.global_limit(),
{
    assert forall|i: int| 0 <= i < c.slots().len() implies (#[trigger] c.slots()[i]).2 <= c.slots()[i].1 by {
        assert(c.slots()[i] == slot_of(c.controls@[i]));
        assert(!semaphore_closed(c.controls@[i].semaphore));
    }
}

} // verus!
