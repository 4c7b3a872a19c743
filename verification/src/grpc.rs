//! The agent-facing service: its messages, and the registry of agents it keeps
//! (registration, heartbeats, configuration).

use vstd::prelude::*;
use crate::health::{AgentInfo, AgentStatus};
use crate::text::{owned, str_eq};

verus! {

/// An agent asks to be registered.
#[derive(Debug)]
pub struct RegisterAgentRequest {
    pub agent_id: String,
    pub address: String,
    pub port: u16,
    pub version: String,
    pub capabilities: Vec<String>,
}

/// Answer to a registration.
#[derive(Debug)]
pub struct RegisterAgentResponse {
    pub success: bool,
    pub message: String,
    pub agent_id: String,
}

/// An agent reports that it is alive.
#[derive(Debug)]
pub struct HeartbeatRequest {
    pub agent_id: String,
}

/// Answer to a heartbeat; the time is in seconds since the epoch.
#[derive(Debug)]
pub struct HeartbeatResponse {
    pub success: bool,
    pub timestamp: i64,
}

/// An agent reports one proxied request.
#[derive(Debug)]
pub struct SubmitTrafficDataRequest {
    pub agent_id: String,
    pub method: String,
    pub url: String,
    pub status_code: Option<u16>,
    pub request_size: u64,
    pub response_size: Option<u64>,
    pub processing_time_ms: u64,
}

/// Answer to a traffic report, with the id the record was stored under.
#[derive(Debug)]
pub struct SubmitTrafficDataResponse {
    pub success: bool,
    pub data_id: String,
}

/// Answer to a metrics report.
#[derive(Debug)]
pub struct SubmitMetricsResponse {
    pub success: bool,
}

/// An agent asks for its configuration.
#[derive(Debug)]
pub struct GetConfigurationRequest {
    pub agent_id: String,
}

/// The configuration of an agent.
#[derive(Debug)]
pub struct GetConfigurationResponse {
    pub config_json: String,
    pub version: u32,
}

/// Position of the agent with the given id, or -1.
pub open spec fn agent_slot(a: Seq<AgentInfo>, id: Seq<char>) -> int
    decreases a.len(),
{
    if a.len() == 0 {
        -1
    } else if a[0].id@ == id {
        0
    } else {
        let k = agent_slot(a.drop_first(), id);
        if k < 0 { -1 } else { k + 1 }
    }
}

proof fn lemma_agent_slot(a: Seq<AgentInfo>, id: Seq<char>)
    ensures
        -1 <= agent_slot(a, id) < a.len(),
        agent_slot(a, id) >= 0 ==> a[agent_slot(a, id)].id@ == id,
        agent_slot(a, id) >= 0 ==> forall|t: int| 0 <= t < agent_slot(a, id) ==> a[t].id@ != id,
        agent_slot(a, id) < 0 ==> forall|t: int| 0 <= t < a.len() ==> a[t].id@ != id,
    decreases a.len(),
{
    if a.len() > 0 {
        lemma_agent_slot(a.drop_first(), id);
        assert forall|t: int| 0 < t < a.len() implies a[t] == a.drop_first()[t - 1] by {}
    }
}

/// The registered agents, one per id.
pub struct AgentRegistry {
    pub agents: Vec<AgentInfo>,
}

impl AgentRegistry {
    /// No agent registered.
    pub fn new() -> (r: AgentRegistry)
        ensures
            r.agents@.len() == 0,
    {
        AgentRegistry { agents: Vec::new() }
    }

    fn find(&self, id: &str) -> (k: Option<usize>)
        ensures
            match k {
                Some(i) => i == agent_slot(self.agents@, id@) && i < self.agents@.len(),
                None => agent_slot(self.agents@, id@) < 0,
            },
    {
        proof {
            lemma_agent_slot(self.agents@, id@);
        }
        let mut i: usize = 0;
        while i < self.agents.len()
            invariant
                i <= self.agents@.len(),
                forall|t: int| 0 <= t < i ==> self.agents@[t].id@ != id@,
                -1 <= agent_slot(self.agents@, id@) < self.agents@.len(),
                agent_slot(self.agents@, id@) >= 0 ==> self.agents@[agent_slot(self.agents@, id@)].id@ == id@,
                agent_slot(self.agents@, id@) >= 0 ==> forall|t: int| 0 <= t < agent_slot(self.agents@, id@) ==> self.agents@[t].id@ != id@,
                agent_slot(self.agents@, id@) < 0 ==> forall|t: int| 0 <= t < self.agents@.len() ==> self.agents@[t].id@ != id@,
            decreases self.agents.len() - i,
        {
            if str_eq(self.agents[i].id.as_str(), id) {
                proof {
                    let f = agent_slot(self.agents@, id@);
                    assert(f >= 0);
                    if f < i {
                        assert(self.agents@[f].id@ == id@);
                    }
                }
                return Some(i);
            }
            i = i + 1;
        }
        None
    }

    /// Whether an agent with this id is registered.
    pub fn contains(&self, id: &str) -> (r: bool)
        ensures
            r == (agent_slot(self.agents@, id@) >= 0),
    {
        match self.find(id) {
            Some(_) => true,
            None => false,
        }
    }

    /// Registers an agent as online with a heartbeat at `now` (replacing an
    /// earlier registration of the same id) and answers it.
    pub fn register_agent(&mut self, request: RegisterAgentRequest, now: i64) -> (r: RegisterAgentResponse)
        ensures
            r.success && r.message@ == "Agent registered successfully"@ && r.agent_id@ == request.agent_id@,
            ({
                let k = agent_slot(final(self).agents@, request.agent_id@);
                &&& k >= 0
                &&& final(self).agents@[k].status == AgentStatus::Online
                &&& final(self).agents@[k].last_heartbeat == now
                &&& final(self).agents@[k].address == request.address
                &&& final(self).agents@[k].port == request.port
                &&& final(self).agents@[k].version == request.version
                &&& final(self).agents@[k].capabilities == request.capabilities
            }),
            forall|id: Seq<char>| id != request.agent_id@ ==> (#[trigger] agent_slot(final(self).agents@, id) >= 0 <==> agent_slot(
                old(self).agents@,
                id,
            ) >= 0),
            ({
                let k0 = agent_slot(old(self).agents@, request.agent_id@);
                &&& final(self).agents@.len() == old(self).agents@.len() + (if k0 >= 0 { 0int } else { 1int })
                &&& forall|t: int| 0 <= t < old(self).agents@.len() && t != k0 ==> final(self).agents@[t] == old(self).agents@[t]
            }),
    {
        let ghost a0 = self.agents@;
        let id = request.agent_id.clone();
        let info = AgentInfo {
            id: request.agent_id.clone(),
            address: request.address,
            port: request.port,
            status: AgentStatus::Online,
            last_heartbeat: now,
            version: request.version,
            capabilities: request.capabilities,
        };
        let ghost ni = info;
        match self.find(id.as_str()) {
            Some(i) => {
                self.agents.set(i, info);
            },
            None => {
                self.agents.push(info);
            },
        }
        proof {
            let a1 = self.agents@;
            lemma_agent_slot(a0, id@);
            lemma_agent_slot(a1, id@);
            let f = agent_slot(a1, id@);
            let g = agent_slot(a0, id@);
            let p: int = if g >= 0 { g } else { a0.len() as int };
            assert(a1[p] == ni);
            if f >= 0 && f < p {
                assert(a1[f] == a0[f]);
            }
            if f < 0 || f > p {
                assert(a1[p].id@ == id@);
            }
            assert(f == p);
            assert forall|x: Seq<char>| x != id@ implies #[trigger] agent_slot(a1, x) >= 0 <==> agent_slot(a0, x) >= 0 by {
                lemma_agent_slot(a1, x);
                lemma_agent_slot(a0, x);
                let u = agent_slot(a0, x);
                let v = agent_slot(a1, x);
                if u >= 0 {
                    assert(a1[u] == a0[u]);
                }
                if v >= 0 && v < a0.len() {
                    if v != p {
                        assert(a0[v] == a1[v]);
                    }
                }
            }
        }
        RegisterAgentResponse { success: true, message: owned("Agent registered successfully"), agent_id: id }
    }

    /// Records a heartbeat of a registered agent at `now` (it is online again);
    /// an unknown agent is refused.
    pub fn heartbeat(&mut self, request: &HeartbeatRequest, now: i64, now_secs: i64) -> (r: Result<HeartbeatResponse, String>)
        ensures
            ({
                let k = agent_slot(old(self).agents@, request.agent_id@);
                &&& k < 0 ==> (r matches Err(e) && e@ == "Agent not registered"@) && final(self).agents@ == old(self).agents@
                &&& k >= 0 ==> (r matches Ok(h) && h.success && h.timestamp == now_secs) && final(self).agents@.len()
                    == old(self).agents@.len() && final(self).agents@[k].status == AgentStatus::Online
                    && final(self).agents@[k].last_heartbeat == now && final(self).agents@[k].id == old(self).agents@[k].id
                    && forall|t: int| 0 <= t < old(self).agents@.len() && t != k ==> final(self).agents@[t] == old(self).agents@[t]
            }),
    {
        match self.find(request.agent_id.as_str()) {
            Some(i) => {
                let mut a = self.agents.remove(i);
                a.last_heartbeat = now;
                a.status = AgentStatus::Online;
                self.agents.insert(i, a);
                Ok(HeartbeatResponse { success: true, timestamp: now_secs })
            },
            None => Err(owned("Agent not registered")),
        }
    }
}

/// The configuration every agent gets.
pub fn get_configuration(request: &GetConfigurationRequest) -> (r: GetConfigurationResponse)
    ensures
        r.config_json@ == "{\"proxy_rules\": [], \"log_level\": \"info\"}"@,
        r.version == 1,
{
    GetConfigurationResponse { config_json: owned("{\"proxy_rules\": [], \"log_level\": \"info\"}"), version: 1 }
}

} // verus!
