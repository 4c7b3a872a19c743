//! Health of the orchestrator: agent liveness from heartbeats, and the overall
//! system status derived from the agents.

use vstd::prelude::*;
use crate::text::owned;

verus! {

/// Overall system status.
#[derive(Clone, Copy, Debug, PartialEq, Eq, Structural)]
pub enum SystemStatus {
    Healthy,
    Degraded,
    Unhealthy,
    Unknown,
}

/// Status of one component of the system.
#[derive(Clone, Copy, Debug, PartialEq, Eq, Structural)]
pub enum ComponentStatus {
    Up,
    Down,
    Degraded,
    Unknown,
}

/// Liveness of a registered agent.
#[derive(Clone, Copy, Debug, PartialEq, Eq, Structural)]
pub enum AgentStatus {
    Online,
    Offline,
    Degraded,
    Unknown,
}

/// A registered agent as the health checker sees it.
#[derive(Debug)]
pub struct AgentInfo {
    pub id: String,
    pub address: String,
    pub port: u16,
    pub status: AgentStatus,
    /// Milliseconds since the epoch.
    pub last_heartbeat: i64,
    pub version: String,
    pub capabilities: Vec<String>,
}

/// The status an agent has after a health check at `now`: an agent silent for
/// longer than the timeout goes offline (an offline or unknown one stays as it
/// is); a responsive offline agent comes back online; otherwise nothing changes.
pub open spec fn checked_status(status: AgentStatus, last_heartbeat: i64, now: i64, timeout_ms: i64) -> AgentStatus {
    if last_heartbeat < now - timeout_ms {
        match status {
            AgentStatus::Online => AgentStatus::Offline,
            AgentStatus::Degraded => AgentStatus::Offline,
            s => s,
        }
    } else {
        match status {
            AgentStatus::Offline => AgentStatus::Online,
            s => s,
        }
    }
}

/// Updates every agent's status from its last heartbeat (see `checked_status`);
/// nothing else about the agents changes.
pub fn check_agent_health(agents: &mut Vec<AgentInfo>, now: i64, timeout_ms: i64)
    requires
        i64::MIN <= now - timeout_ms <= i64::MAX,
    ensures
        final(agents)@.len() == old(agents)@.len(),
        forall|i: int|
            0 <= i < final(agents)@.len() ==> {
                let a = old(agents)@[i];
                let b = #[trigger] final(agents)@[i];
                &&& b.status == checked_status(a.status, a.last_heartbeat, now, timeout_ms)
                &&& b.id == a.id && b.address == a.address && b.port == a.port
                &&& b.last_heartbeat == a.last_heartbeat && b.version == a.version && b.capabilities == a.capabilities
            },
{
    let threshold = now - timeout_ms;
    let mut i: usize = 0;
    while i < agents.len()
        invariant
            threshold == now - timeout_ms,
            i <= agents@.len(),
            agents@.len() == old(agents)@.len(),
            forall|j: int|
                0 <= j < agents@.len() ==> {
                    let a = old(agents)@[j];
                    let b = #[trigger] agents@[j];
                    &&& (j < i ==> b.status == checked_status(a.status, a.last_heartbeat, now, timeout_ms))
                    &&& (j >= i ==> b.status == a.status)
                    &&& b.id == a.id && b.address == a.address && b.port == a.port
                    &&& b.last_heartbeat == a.last_heartbeat && b.version == a.version && b.capabilities == a.capabilities
                },
        decreases agents.len() - i,
    {
        let st = agents[i].status;
        let new_status = if agents[i].last_heartbeat < threshold {
            match st {
                AgentStatus::Online => AgentStatus::Offline,
                AgentStatus::Degraded => AgentStatus::Offline,
                s => s,
            }
        } else {
            match st {
                AgentStatus::Offline => AgentStatus::Online,
                s => s,
            }
        };
        if new_status != st {
            let mut a = agents.remove(i);
            a.status = new_status;
            agents.insert(i, a);
        }
        i = i + 1;
    }
}

/// How many agents have each status.
pub struct AgentCounts {
    pub total: usize,
    pub online: usize,
    pub offline: usize,
    pub degraded: usize,
}

/// Number of agents with the given status.
pub open spec fn count_status(agents: Seq<AgentInfo>, s: AgentStatus) -> nat
    decreases agents.len(),
{
    if agents.len() == 0 {
        0
    } else {
        count_status(agents.drop_last(), s) + if agents.last().status == s { 1nat } else { 0nat }
    }
}

/// The overall status: unknown without agents, unhealthy when all are offline,
/// degraded when some are offline or degraded, healthy otherwise.
pub open spec fn overall_status(total: nat, offline: nat, degraded: nat) -> SystemStatus {
    if total == 0 {
        SystemStatus::Unknown
    } else if offline == total {
        SystemStatus::Unhealthy
    } else if offline > 0 || degraded > 0 {
        SystemStatus::Degraded
    } else {
        SystemStatus::Healthy
    }
}

proof fn lemma_count_bound(agents: Seq<AgentInfo>, s: AgentStatus)
    ensures
        count_status(agents, s) <= agents.len(),
    decreases agents.len(),
{
    if agents.len() > 0 {
        lemma_count_bound(agents.drop_last(), s);
    }
}

/// Counts the agents by status and derives the overall system status.
pub fn summarize_agents(agents: &Vec<AgentInfo>) -> (r: (AgentCounts, SystemStatus))
    ensures
        r.0.total == agents@.len(),
        r.0.online == count_status(agents@, AgentStatus::Online),
        r.0.offline == count_status(agents@, AgentStatus::Offline),
        r.0.degraded == count_status(agents@, AgentStatus::Degraded),
        r.1 == overall_status(agents@.len(), r.0.offline as nat, r.0.degraded as nat),
{
    let mut online: usize = 0;
    let mut offline: usize = 0;
    let mut degraded: usize = 0;
    let mut i: usize = 0;
    while i < agents.len()
        invariant
            i <= agents@.len(),
            online == count_status(agents@.take(i as int), AgentStatus::Online),
            offline == count_status(agents@.take(i as int), AgentStatus::Offline),
            degraded == count_status(agents@.take(i as int), AgentStatus::Degraded),
        decreases agents.len() - i,
    {
        proof {
            assert(agents@.take(i + 1).drop_last() =~= agents@.take(i as int));
            lemma_count_bound(agents@.take(i as int), AgentStatus::Online);
            lemma_count_bound(agents@.take(i as int), AgentStatus::Offline);
            lemma_count_bound(agents@.take(i as int), AgentStatus::Degraded);
        }
        match agents[i].status {
            AgentStatus::Online => online = online + 1,
            AgentStatus::Offline => offline = offline + 1,
            AgentStatus::Degraded => degraded = degraded + 1,
            AgentStatus::Unknown => {},
        }
        i = i + 1;
    }
    proof {
        assert(agents@.take(agents@.len() as int) =~= agents@);
    }
    let total = agents.len();
    let overall = if total == 0 {
        SystemStatus::Unknown
    } else if offline == total {
        SystemStatus::Unhealthy
    } else if offline > 0 || degraded > 0 {
        SystemStatus::Degraded
    } else {
        SystemStatus::Healthy
    };
    (AgentCounts { total, online, offline, degraded }, overall)
}

/// A health report; times are milliseconds since the epoch, and the CPU figure
/// is kept by the caller.
pub struct HealthStatus {
    pub overall_status: SystemStatus,
    pub timestamp: i64,
    pub uptime_seconds: u64,
    pub total_agents: usize,
    pub online_agents: usize,
    pub offline_agents: usize,
    pub degraded_agents: usize,
    pub database_status: ComponentStatus,
    pub grpc_server_status: ComponentStatus,
    pub memory_usage_mb: u64,
}

impl HealthStatus {
    /// The report before anything is known, stamped `now`: status and
    /// components unknown, no agents, no uptime.
    pub fn unknown_at(now: i64) -> (r: HealthStatus)
        ensures
            r.overall_status == SystemStatus::Unknown,
            r.timestamp == now,
            r.uptime_seconds == 0 && r.memory_usage_mb == 0,
            r.total_agents == 0 && r.online_agents == 0 && r.offline_agents == 0 && r.degraded_agents == 0,
            r.database_status == ComponentStatus::Unknown,
            r.grpc_server_status == ComponentStatus::Unknown,
    {
        HealthStatus {
            overall_status: SystemStatus::Unknown,
            timestamp: now,
            uptime_seconds: 0,
            total_agents: 0,
            online_agents: 0,
            offline_agents: 0,
            degraded_agents: 0,
            database_status: ComponentStatus::Unknown,
            grpc_server_status: ComponentStatus::Unknown,
            memory_usage_mb: 0,
        }
    }
}

/// The health report for the registered agents: their counts and overall
/// status, with the database and gRPC server reported up.
pub fn get_health_status(agents: &Vec<AgentInfo>, now: i64, uptime_seconds: u64, memory_usage_mb: u64) -> (r: HealthStatus)
    ensures
        r.total_agents == agents@.len(),
        r.online_agents == count_status(agents@, AgentStatus::Online),
        r.offline_agents == count_status(agents@, AgentStatus::Offline),
        r.degraded_agents == count_status(agents@, AgentStatus::Degraded),
        r.overall_status == overall_status(agents@.len(), r.offline_agents as nat, r.degraded_agents as nat),
        r.timestamp == now,
        r.uptime_seconds == uptime_seconds,
        r.memory_usage_mb == memory_usage_mb,
        r.database_status == ComponentStatus::Up,
        r.grpc_server_status == ComponentStatus::Up,
{
    let (c, overall) = summarize_agents(agents);
    HealthStatus {
        overall_status: overall,
        timestamp: now,
        uptime_seconds,
        total_agents: c.total,
        online_agents: c.online,
        offline_agents: c.offline,
        degraded_agents: c.degraded,
        database_status: ComponentStatus::Up,
        grpc_server_status: ComponentStatus::Up,
        memory_usage_mb,
    }
}

/// The health checker's settings and whether its periodic check runs.
pub struct HealthChecker {
    pub check_interval_seconds: u64,
    pub agent_timeout_seconds: u64,
    pub running: bool,
}

impl HealthChecker {
    /// A stopped checker with the given interval and agent timeout.
    pub fn new(check_interval_seconds: u64, agent_timeout_seconds: u64) -> (r: HealthChecker)
        ensures
            r.check_interval_seconds == check_interval_seconds,
            r.agent_timeout_seconds == agent_timeout_seconds,
            !r.running,
    {
        HealthChecker { check_interval_seconds, agent_timeout_seconds, running: false }
    }

    /// Marks the checker as running; refused when it already runs.
    pub fn start(&mut self) -> (r: Result<(), String>)
        ensures
            old(self).running ==> (r matches Err(e) && e@ == "Health checker is already running"@),
            !old(self).running ==> r is Ok,
            final(self).running,
            final(self).check_interval_seconds == old(self).check_interval_seconds,
            final(self).agent_timeout_seconds == old(self).agent_timeout_seconds,
    {
        if self.running {
            return Err(owned("Health checker is already running"));
        }
        self.running = true;
        Ok(())
    }

    /// Marks the checker as stopped.
    pub fn stop(&mut self)
        ensures
            !final(self).running,
            final(self).check_interval_seconds == old(self).check_interval_seconds,
            final(self).agent_timeout_seconds == old(self).agent_timeout_seconds,
    {
        self.running = false;
    }

    /// Whether the periodic check runs.
    pub fn is_running(&self) -> (r: bool)
        ensures
            r == self.running,
    {
        self.running
    }
}

/// After a health check no agent that missed the timeout is online or degraded.
pub proof fn law_stale_agents_not_online(status: AgentStatus, last_heartbeat: i64, now: i64, timeout_ms: i64)
    requires
        last_heartbeat < now - timeout_ms,
    ensures
        checked_status(status, last_heartbeat, now, timeout_ms) != AgentStatus::Online,
        checked_status(status, last_heartbeat, now, timeout_ms) != AgentStatus::Degraded,
{
}

/// A check changes nothing once it has run: checking again at the same time
/// gives the same status.
pub proof fn law_check_idempotent(status: AgentStatus, last_heartbeat: i64, now: i64, timeout_ms: i64)
    ensures
        checked_status(checked_status(status, last_heartbeat, now, timeout_ms), last_heartbeat, now, timeout_ms)
            == checked_status(status, last_heartbeat, now, timeout_ms),
{
}

proof fn lemma_count_all_none(agents: Seq<AgentInfo>, s: AgentStatus)
    ensures
        count_status(agents, s) <= agents.len(),
        count_status(agents, s) == agents.len() <==> forall|i: int| 0 <= i < agents.len() ==> (#[trigger] agents[i]).status == s,
        count_status(agents, s) == 0 <==> forall|i: int| 0 <= i < agents.len() ==> (#[trigger] agents[i]).status != s,
    decreases agents.len(),
{
    if agents.len() > 0 {
        let d = agents.drop_last();
        lemma_count_all_none(d, s);
        assert forall|i: int| 0 <= i < d.len() implies d[i] == agents[i] by {}
        if forall|i: int| 0 <= i < agents.len() ==> (#[trigger] agents[i]).status == s {
            assert forall|i: int| 0 <= i < d.len() implies (#[trigger] d[i]).status == s by {
                assert(agents[i].status == s);
            }
        }
        if forall|i: int| 0 <= i < agents.len() ==> (#[trigger] agents[i]).status != s {
            assert forall|i: int| 0 <= i < d.len() implies (#[trigger] d[i]).status != s by {
                assert(agents[i].status != s);
            }
        }
        if count_status(agents, s) == agents.len() {
            assert forall|i: int| 0 <= i < agents.len() implies (#[trigger] agents[i]).status == s by {
                if i < d.len() {
                    assert(d[i].status == s);
                }
            }
        }
        if count_status(agents, s) == 0 {
            assert forall|i: int| 0 <= i < agents.len() implies (#[trigger] agents[i]).status != s by {
                if i < d.len() {
                    assert(d[i].status != s);
                }
            }
        }
    }
}

/// The overall status from the agents' statuses: unknown exactly when there is
/// no agent, unhealthy exactly when there are agents and all are offline,
/// healthy exactly when there are agents and none is offline or degraded, and
/// degraded when some agent is not offline while some is offline or degraded.
pub proof fn law_overall_status(agents: Seq<AgentInfo>)
    ensures
        ({
            let st = overall_status(
                agents.len(),
                count_status(agents, AgentStatus::Offline),
                count_status(agents, AgentStatus::Degraded),
            );
            &&& (st == SystemStatus::Unknown <==> agents.len() == 0)
            &&& (st == SystemStatus::Unhealthy <==> (agents.len() > 0 && forall|i: int|
                0 <= i < agents.len() ==> (#[trigger] agents[i]).status == AgentStatus::Offline))
            &&& (st == SystemStatus::Healthy <==> (agents.len() > 0 && forall|i: int|
                0 <= i < agents.len() ==> (#[trigger] agents[i]).status != AgentStatus::Offline
                    && agents[i].status != AgentStatus::Degraded))
            &&& ((exists|i: int| 0 <= i < agents.len() && (#[trigger] agents[i]).status != AgentStatus::Offline)
                && (exists|j: int| 0 <= j < agents.len() && ((#[trigger] agents[j]).status == AgentStatus::Offline
                    || agents[j].status == AgentStatus::Degraded)) ==> st == SystemStatus::Degraded)
        }),
{
    lemma_count_all_none(agents, AgentStatus::Offline);
    lemma_count_all_none(agents, AgentStatus::Degraded);
    let off = count_status(agents, AgentStatus::Offline);
    let deg = count_status(agents, AgentStatus::Degraded);
    if exists|i: int| 0 <= i < agents.len() && (#[trigger] agents[i]).status != AgentStatus::Offline {
        let i = choose|i: int| 0 <= i < agents.len() && (#[trigger] agents[i]).status != AgentStatus::Offline;
        assert(off != agents.len());
    }
    if exists|j: int| 0 <= j < agents.len() && ((#[trigger] agents[j]).status == AgentStatus::Offline
        || agents[j].status == AgentStatus::Degraded) {
        let j = choose|j: int| 0 <= j < agents.len() && ((#[trigger] agents[j]).status == AgentStatus::Offline
            || agents[j].status == AgentStatus::Degraded);
        assert(off > 0 || deg > 0);
    }
    if agents.len() > 0 && forall|i: int| 0 <= i < agents.len() ==> (#[trigger] agents[i]).status != AgentStatus::Offline
        && agents[i].status != AgentStatus::Degraded {
        assert(forall|i: int| 0 <= i < agents.len() ==> (#[trigger] agents[i]).status != AgentStatus::Offline);
        assert(forall|i: int| 0 <= i < agents.len() ==> (#[trigger] agents[i]).status != AgentStatus::Degraded);
    }
    if agents.len() > 0 && off == 0 && deg == 0 {
        assert forall|i: int| 0 <= i < agents.len() implies (#[trigger] agents[i]).status != AgentStatus::Offline
            && agents[i].status != AgentStatus::Degraded by {
            assert(agents[i].status != AgentStatus::Offline);
            assert(agents[i].status != AgentStatus::Degraded);
        }
    }
}

} // verus!
