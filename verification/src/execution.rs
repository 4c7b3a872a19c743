//! Attack execution bookkeeping: execution settings, highlight rules, and the
//! progress of running attacks (started, counted, paused, resumed, stopped).

use vstd::prelude::*;
use crate::distribution::{views, DistributionStats, AssignmentView};
use crate::engine::{AgentInfo, AgentStatus, AttackError, AttackMode};
use crate::distribution::{online, online_agents};
use crate::text::{append_str, owned, str_eq};

verus! {

/// Status of an attack execution.
#[derive(Clone, Copy, Debug, PartialEq, Eq, Structural)]
pub enum AttackExecutionStatus {
    Configured,
    Starting,
    Running,
    Pausing,
    Paused,
    Stopping,
    Completed,
    Failed,
    Cancelled,
}

/// Logical operators for combining highlight conditions.
#[derive(Clone, Copy, Debug, PartialEq, Eq, Structural)]
pub enum LogicalOperator {
    And,
    Or,
    Not,
}

/// Conditions under which a result is highlighted.
#[derive(Debug)]
pub enum HighlightCondition {
    StatusCode(Vec<i32>),
    ResponseLength { min: Option<usize>, max: Option<usize> },
    ResponseTime { min_ms: Option<u64>, max_ms: Option<u64> },
    ResponseContains(String),
    ResponseRegex(String),
    Combined { operator: LogicalOperator, conditions: Vec<HighlightCondition> },
}

/// A named highlight rule.
#[derive(Debug)]
pub struct ResultHighlightRule {
    pub name: String,
    pub condition: HighlightCondition,
    /// 1-10, higher is more important.
    pub priority: u8,
}

/// Counters of one agent's part of an attack.
#[derive(Debug)]
pub struct AgentExecutionStats {
    pub agent_id: String,
    pub assigned_requests: usize,
    pub completed_requests: usize,
    pub successful_requests: usize,
    pub failed_requests: usize,
    pub status: AgentStatus,
    /// Milliseconds since the epoch.
    pub last_activity: Option<i64>,
}

impl AgentExecutionStats {
    /// A copy of these counters.
    pub fn duplicate(&self) -> (r: AgentExecutionStats)
        ensures
            r == *self,
    {
        AgentExecutionStats {
            agent_id: self.agent_id.clone(),
            assigned_requests: self.assigned_requests,
            completed_requests: self.completed_requests,
            successful_requests: self.successful_requests,
            failed_requests: self.failed_requests,
            status: self.status,
            last_activity: self.last_activity,
        }
    }
}

/// Progress of an attack; times are milliseconds since the epoch.
#[derive(Debug)]
pub struct AttackProgress {
    pub attack_id: String,
    pub status: AttackExecutionStatus,
    pub total_requests: usize,
    pub completed_requests: usize,
    pub successful_requests: usize,
    pub failed_requests: usize,
    pub highlighted_results: usize,
    pub agent_statistics: Vec<AgentExecutionStats>,
    pub started_at: Option<i64>,
    pub completed_at: Option<i64>,
}

/// The mathematical value of an attack's progress.
pub struct ProgressView {
    pub attack_id: Seq<char>,
    pub status: AttackExecutionStatus,
    pub total_requests: nat,
    pub completed_requests: nat,
    pub successful_requests: nat,
    pub failed_requests: nat,
    pub highlighted_results: nat,
    pub agent_statistics: Seq<AgentExecutionStats>,
    pub started_at: Option<i64>,
    pub completed_at: Option<i64>,
}

impl View for AttackProgress {
    type V = ProgressView;

    open spec fn view(&self) -> ProgressView {
        ProgressView {
            attack_id: self.attack_id@,
            status: self.status,
            total_requests: self.total_requests as nat,
            completed_requests: self.completed_requests as nat,
            successful_requests: self.successful_requests as nat,
            failed_requests: self.failed_requests as nat,
            highlighted_results: self.highlighted_results as nat,
            agent_statistics: self.agent_statistics@,
            started_at: self.started_at,
            completed_at: self.completed_at,
        }
    }
}

impl AttackProgress {
    /// A copy of this progress.
    pub fn duplicate(&self) -> (r: AttackProgress)
        ensures
            r@ == self@,
    {
        let mut stats: Vec<AgentExecutionStats> = Vec::new();
        let mut i: usize = 0;
        while i < self.agent_statistics.len()
            invariant
                i <= self.agent_statistics@.len(),
                stats@ == self.agent_statistics@.subrange(0, i as int),
            decreases self.agent_statistics.len() - i,
        {
            stats.push(self.agent_statistics[i].duplicate());
            proof {
                assert(self.agent_statistics@.subrange(0, i + 1) =~= self.agent_statistics@.subrange(0, i as int).push(
                    self.agent_statistics@[i as int],
                ));
            }
            i = i + 1;
        }
        proof {
            assert(self.agent_statistics@.subrange(0, self.agent_statistics@.len() as int) =~= self.agent_statistics@);
        }
        AttackProgress {
            attack_id: self.attack_id.clone(),
            status: self.status,
            total_requests: self.total_requests,
            completed_requests: self.completed_requests,
            successful_requests: self.successful_requests,
            failed_requests: self.failed_requests,
            highlighted_results: self.highlighted_results,
            agent_statistics: stats,
            started_at: self.started_at,
            completed_at: self.completed_at,
        }
    }
}

/// Everything an attack run needs.
#[derive(Debug)]
pub struct AttackExecutionConfig {
    pub attack_id: String,
    pub request_template: String,
    pub attack_mode: AttackMode,
    pub distribution: DistributionStats,
    pub concurrent_requests_per_agent: u32,
    pub timeout_seconds: u64,
    pub retry_attempts: u32,
    pub result_highlighting_rules: Vec<ResultHighlightRule>,
}

/// Execution settings for a distributed attack, with the default concurrency
/// (10 requests per agent), timeout (30 s), retries (3) and no highlight rules.
pub fn new_execution_config(
    attack_id: String,
    request_template: String,
    attack_mode: AttackMode,
    distribution: DistributionStats,
) -> (r: AttackExecutionConfig)
    ensures
        r.attack_id == attack_id,
        r.request_template == request_template,
        r.attack_mode == attack_mode,
        r.distribution == distribution,
        r.concurrent_requests_per_agent == 10,
        r.timeout_seconds == 30,
        r.retry_attempts == 3,
        r.result_highlighting_rules@.len() == 0,
{
    AttackExecutionConfig {
        attack_id,
        request_template,
        attack_mode,
        distribution,
        concurrent_requests_per_agent: 10,
        timeout_seconds: 30,
        retry_attempts: 3,
        result_highlighting_rules: Vec::new(),
    }
}

/// Refuses to start an attack when no agent is online.
pub fn check_agents_for_start(agents: &[AgentInfo]) -> (r: Result<(), AttackError>)
    ensures
        online(agents@).len() > 0 ==> r is Ok,
        online(agents@).len() == 0 ==> (r matches Err(AttackError::AgentUnavailable { agent_id })
            && agent_id@ == "No online agents available"@),
{
    let on = online_agents(agents);
    if on.len() == 0 {
        Err(AttackError::AgentUnavailable { agent_id: owned("No online agents available") })
    } else {
        Ok(())
    }
}

/// Sum of the payload counts of the assignments.
pub open spec fn request_total(a: Seq<AssignmentView>) -> nat
    decreases a.len(),
{
    if a.len() == 0 { 0 } else { request_total(a.drop_last()) + a.last().payloads.len() }
}

/// Position of the first counters of agent `id`, or -1.
pub open spec fn stats_index(s: Seq<AgentExecutionStats>, id: Seq<char>) -> int
    decreases s.len(),
{
    if s.len() == 0 {
        -1
    } else if s[0].agent_id@ == id {
        0
    } else {
        let k = stats_index(s.drop_first(), id);
        if k < 0 { -1 } else { k + 1 }
    }
}

proof fn lemma_stats_index(s: Seq<AgentExecutionStats>, id: Seq<char>)
    ensures
        -1 <= stats_index(s, id) < s.len(),
        stats_index(s, id) >= 0 ==> s[stats_index(s, id)].agent_id@ == id,
        stats_index(s, id) >= 0 ==> forall|t: int| 0 <= t < stats_index(s, id) ==> s[t].agent_id@ != id,
        stats_index(s, id) < 0 ==> forall|t: int| 0 <= t < s.len() ==> s[t].agent_id@ != id,
    decreases s.len(),
{
    if s.len() > 0 {
        lemma_stats_index(s.drop_first(), id);
        assert forall|t: int| 0 < t < s.len() implies s[t] == s.drop_first()[t - 1] by {}
    }
}

/// Fresh counters of agent `id` with `n` assigned requests.
pub open spec fn fresh_stats(s: AgentExecutionStats, id: Seq<char>, n: nat) -> bool {
    &&& s.agent_id@ == id
    &&& s.assigned_requests == n
    &&& s.completed_requests == 0
    &&& s.successful_requests == 0
    &&& s.failed_requests == 0
    &&& s.status == AgentStatus::Online
    &&& s.last_activity is None
}

/// The agent counters after the first `k` assignments: one per agent, in order
/// of first appearance, holding the payload count of its last assignment.
pub open spec fn stats_upto(a: Seq<AssignmentView>, k: nat) -> Seq<(Seq<char>, nat)>
    decreases k,
{
    if k == 0 {
        Seq::empty()
    } else {
        let s = stats_upto(a, (k - 1) as nat);
        let x = a[k - 1];
        let i = pair_index(s, x.agent_id);
        if i >= 0 { s.update(i, (x.agent_id, x.payloads.len())) } else { s.push((x.agent_id, x.payloads.len())) }
    }
}

/// Position of the first pair with key `id`, or -1.
pub open spec fn pair_index(s: Seq<(Seq<char>, nat)>, id: Seq<char>) -> int
    decreases s.len(),
{
    if s.len() == 0 {
        -1
    } else if s[0].0 == id {
        0
    } else {
        let k = pair_index(s.drop_first(), id);
        if k < 0 { -1 } else { k + 1 }
    }
}

proof fn lemma_pair_index(s: Seq<(Seq<char>, nat)>, id: Seq<char>)
    ensures
        -1 <= pair_index(s, id) < s.len(),
        pair_index(s, id) >= 0 ==> s[pair_index(s, id)].0 == id,
        pair_index(s, id) >= 0 ==> forall|t: int| 0 <= t < pair_index(s, id) ==> s[t].0 != id,
        pair_index(s, id) < 0 ==> forall|t: int| 0 <= t < s.len() ==> s[t].0 != id,
    decreases s.len(),
{
    if s.len() > 0 {
        lemma_pair_index(s.drop_first(), id);
        assert forall|t: int| 0 < t < s.len() implies s[t] == s.drop_first()[t - 1] by {}
    }
}

/// The counters match the pairs: same agents in the same order, fresh, with the
/// paired assigned counts.
pub open spec fn stats_match(s: Seq<AgentExecutionStats>, p: Seq<(Seq<char>, nat)>) -> bool {
    &&& s.len() == p.len()
    &&& forall|i: int| 0 <= i < s.len() ==> fresh_stats(#[trigger] s[i], p[i].0, p[i].1)
}

/// The progress of an attack as it starts: status `Starting`, every request still
/// to do, fresh counters per agent.
pub open spec fn is_initial_progress(p: ProgressView, config: AttackExecutionConfig, now: i64) -> bool {
    let a = views(config.distribution.assignments@);
    &&& p.attack_id == config.attack_id@
    &&& p.status == AttackExecutionStatus::Starting
    &&& p.total_requests == request_total(a)
    &&& p.completed_requests == 0
    &&& p.successful_requests == 0
    &&& p.failed_requests == 0
    &&& p.highlighted_results == 0
    &&& stats_match(p.agent_statistics, stats_upto(a, a.len()))
    &&& p.started_at == Some(now)
    &&& p.completed_at is None
}

/// The starting progress of an attack.
pub fn initial_progress(config: &AttackExecutionConfig, now: i64) -> (r: AttackProgress)
    requires
        request_total(views(config.distribution.assignments@)) <= usize::MAX,
    ensures
        is_initial_progress(r@, *config, now),
{
    let ghost a = views(config.distribution.assignments@);
    let asg = &config.distribution.assignments;
    let mut total: usize = 0;
    let mut stats: Vec<AgentExecutionStats> = Vec::new();
    let mut k: usize = 0;
    while k < asg.len()
        invariant
            k <= asg@.len(),
            a == views(asg@),
            request_total(a) <= usize::MAX,
            total == request_total(a.take(k as int)),
            stats_match(stats@, stats_upto(a, k as nat)),
        decreases asg.len() - k,
    {
        proof {
            assert(a.take(k + 1).drop_last() =~= a.take(k as int));
            lemma_request_total_prefix(a, k + 1);
            lemma_pair_index(stats_upto(a, k as nat), a[k as int].agent_id);
        }
        let n = asg[k].payloads.len();
        total = total + n;
        let id = asg[k].agent_id.as_str();
        let mut j: usize = 0;
        while j < stats.len() && !str_eq(stats[j].agent_id.as_str(), id)
            invariant
                j <= stats@.len(),
                forall|t: int| 0 <= t < j ==> stats@[t].agent_id@ != id@,
            decreases stats.len() - j,
        {
            j = j + 1;
        }
        let fresh = AgentExecutionStats {
            agent_id: asg[k].agent_id.clone(),
            assigned_requests: n,
            completed_requests: 0,
            successful_requests: 0,
            failed_requests: 0,
            status: AgentStatus::Online,
            last_activity: None,
        };
        let ghost s0 = stats@;
        let ghost p0 = stats_upto(a, k as nat);
        if j < stats.len() {
            stats.set(j, fresh);
            proof {
                let pi = pair_index(p0, a[k as int].agent_id);
                assert(stats@[j as int].agent_id@ == id@);
                assert(pi == j) by {
                    if pi < j && pi >= 0 {
                        assert(s0[pi].agent_id@ == p0[pi].0);
                    }
                    if pi < 0 {
                        assert(s0[j as int].agent_id@ == p0[j as int].0);
                    }
                    if pi > j {
                        assert(s0[j as int].agent_id@ == p0[j as int].0);
                    }
                }
            }
        } else {
            stats.push(fresh);
            proof {
                let pi = pair_index(p0, a[k as int].agent_id);
                assert(pi < 0) by {
                    if pi >= 0 {
                        assert(s0[pi].agent_id@ == p0[pi].0);
                    }
                }
            }
        }
        k = k + 1;
    }
    proof {
        assert(a.take(asg@.len() as int) =~= a);
    }
    AttackProgress {
        attack_id: config.attack_id.clone(),
        status: AttackExecutionStatus::Starting,
        total_requests: total,
        completed_requests: 0,
        successful_requests: 0,
        failed_requests: 0,
        highlighted_results: 0,
        agent_statistics: stats,
        started_at: Some(now),
        completed_at: None,
    }
}

proof fn lemma_request_total_prefix(a: Seq<AssignmentView>, k: int)
    requires
        0 <= k <= a.len(),
    ensures
        request_total(a.take(k)) <= request_total(a),
    decreases a.len() - k,
{
    if k < a.len() {
        lemma_request_total_prefix(a, k + 1);
        assert(a.take(k + 1).drop_last() =~= a.take(k));
    } else {
        assert(a.take(k) =~= a);
    }
}

/// Position of the progress of attack `id`, or -1.
pub open spec fn progress_index(v: Seq<ProgressView>, id: Seq<char>) -> int
    decreases v.len(),
{
    if v.len() == 0 {
        -1
    } else if v[0].attack_id == id {
        0
    } else {
        let k = progress_index(v.drop_first(), id);
        if k < 0 { -1 } else { k + 1 }
    }
}

proof fn lemma_progress_index(v: Seq<ProgressView>, id: Seq<char>)
    ensures
        -1 <= progress_index(v, id) < v.len(),
        progress_index(v, id) >= 0 ==> v[progress_index(v, id)].attack_id == id,
        progress_index(v, id) >= 0 ==> forall|t: int| 0 <= t < progress_index(v, id) ==> v[t].attack_id != id,
        progress_index(v, id) < 0 ==> forall|t: int| 0 <= t < v.len() ==> v[t].attack_id != id,
    decreases v.len(),
{
    if v.len() > 0 {
        lemma_progress_index(v.drop_first(), id);
        assert forall|t: int| 0 < t < v.len() implies v[t] == v.drop_first()[t - 1] by {}
    }
}

/// No two attacks share an id.
pub open spec fn distinct_attacks(v: Seq<ProgressView>) -> bool {
    forall|i: int, j: int| 0 <= i < v.len() && 0 <= j < v.len() && i != j ==> v[i].attack_id != v[j].attack_id
}

/// The progress of attack `id`, if it is active.
pub open spec fn progress_of(v: Seq<ProgressView>, id: Seq<char>) -> Option<ProgressView> {
    let i = progress_index(v, id);
    if i >= 0 { Some(v[i]) } else { None }
}

/// `p` with another status.
pub open spec fn with_status(p: ProgressView, s: AttackExecutionStatus) -> ProgressView {
    ProgressView { status: s, ..p }
}

/// `p` after one more result: one more completed request, and `Completed` (at
/// `now`) once every request is done.
pub open spec fn after_result(p: ProgressView, now: i64) -> ProgressView {
    let c = p.completed_requests + 1;
    if c >= p.total_requests {
        ProgressView { completed_requests: c, status: AttackExecutionStatus::Completed, completed_at: Some(now), ..p }
    } else {
        ProgressView { completed_requests: c, ..p }
    }
}

/// The active attacks and their progress, one entry per attack id.
pub struct ExecutionRegistry {
    attacks: Vec<AttackProgress>,
}

impl ExecutionRegistry {
    /// The progress of every active attack.
    pub closed spec fn view(&self) -> Seq<ProgressView> {
        self.attacks@.map_values(|p: AttackProgress| p@)
    }

    /// Every attack id occurs once.
    pub closed spec fn wf(&self) -> bool {
        distinct_attacks(self.view())
    }

    /// No attack is active.
    pub fn new() -> (r: ExecutionRegistry)
        ensures
            r.wf(),
            r.view() == Seq::<ProgressView>::empty(),
    {
        let r = ExecutionRegistry { attacks: Vec::new() };
        proof {
            assert(r.view() =~= Seq::<ProgressView>::empty());
        }
        r
    }

    fn find(&self, id: &str) -> (k: Option<usize>)
        ensures
            match k {
                Some(i) => i == progress_index(self.view(), id@) && i < self.view().len(),
                None => progress_index(self.view(), id@) < 0,
            },
    {
        let ghost v = self.view();
        proof {
            lemma_progress_index(v, id@);
        }
        let mut i: usize = 0;
        while i < self.attacks.len()
            invariant
                i <= self.attacks@.len(),
                v == self.attacks@.map_values(|p: AttackProgress| p@),
                forall|t: int| 0 <= t < i ==> v[t].attack_id != id@,
                -1 <= progress_index(v, id@) < v.len(),
                progress_index(v, id@) >= 0 ==> v[progress_index(v, id@)].attack_id == id@,
                progress_index(v, id@) >= 0 ==> forall|t: int| 0 <= t < progress_index(v, id@) ==> v[t].attack_id != id@,
                progress_index(v, id@) < 0 ==> forall|t: int| 0 <= t < v.len() ==> v[t].attack_id != id@,
            decreases self.attacks.len() - i,
        {
            if str_eq(self.attacks[i].attack_id.as_str(), id) {
                proof {
                    assert(v[i as int].attack_id == id@);
                    let f = progress_index(v, id@);
                    if f < 0 {
                        assert(v[i as int].attack_id != id@);
                    }
                }
                return Some(i);
            }
            i = i + 1;
        }
        None
    }

    /// Records an attack whose agents have all been started: its progress becomes
    /// `Running` and replaces any earlier entry of the same id. Returns the
    /// progress to announce.
    pub fn insert_running(&mut self, progress: AttackProgress) -> (r: AttackProgress)
        requires
            old(self).wf(),
        ensures
            final(self).wf(),
            r@ == with_status(progress@, AttackExecutionStatus::Running),
            progress_of(final(self).view(), progress@.attack_id) == Some(r@),
            forall|id: Seq<char>| id != progress@.attack_id ==> #[trigger] progress_of(final(self).view(), id) == progress_of(
                old(self).view(),
                id,
            ),
    {
        let ghost v0 = self.view();
        let mut p = progress;
        p.status = AttackExecutionStatus::Running;
        let out = p.duplicate();
        match self.find(p.attack_id.as_str()) {
            Some(i) => {
                self.attacks.set(i, p);
                proof {
                    assert(self.view() =~= v0.update(i as int, out@));
                    lemma_progress_index(v0, out@.attack_id);
                    lemma_progress_index(self.view(), out@.attack_id);
                    let f = progress_index(self.view(), out@.attack_id);
                    if f >= 0 && f < i {
                        assert(self.view()[f] == v0[f]);
                    }
                    if f < 0 || f > i {
                        assert(self.view()[i as int].attack_id == out@.attack_id);
                    }
                    assert(f == i);
                }
            },
            None => {
                self.attacks.push(p);
                proof {
                    assert(self.view() =~= v0.push(out@));
                    lemma_progress_index(v0, out@.attack_id);
                    lemma_progress_index(self.view(), out@.attack_id);
                    let f = progress_index(self.view(), out@.attack_id);
                    if f >= 0 && f < v0.len() {
                        assert(self.view()[f] == v0[f]);
                    }
                    if f < 0 {
                        assert(self.view()[v0.len() as int].attack_id == out@.attack_id);
                    }
                    assert(f == v0.len());
                }
            },
        }
        proof {
            lemma_progress_index(v0, out@.attack_id);
            lemma_progress_index(self.view(), out@.attack_id);
            assert forall|id: Seq<char>| id != out@.attack_id implies #[trigger] progress_of(self.view(), id) == progress_of(v0, id) by {
                lemma_progress_index(v0, id);
                lemma_progress_index(self.view(), id);
                let a = progress_index(v0, id);
                let b = progress_index(self.view(), id);
                if a >= 0 {
                    assert(self.view()[a].attack_id == id);
                }
                if b >= 0 && b < v0.len() {
                    assert(v0[b].attack_id == id);
                }
            }
            let f = progress_index(self.view(), out@.attack_id);
            if f >= 0 {
                assert(self.view()[f].attack_id == out@.attack_id);
            }
        }
        out
    }

    /// The progress of attack `id`, if it is active.
    pub fn get_attack_progress(&self, id: &str) -> (r: Option<AttackProgress>)
        ensures
            match r {
                Some(p) => progress_of(self.view(), id@) == Some(p@),
                None => progress_of(self.view(), id@) is None,
            },
    {
        match self.find(id) {
            Some(i) => {
                let p = self.attacks[i].duplicate();
                Some(p)
            },
            None => None,
        }
    }

    /// The progress of every active attack.
    pub fn get_active_attacks(&self) -> (r: Vec<AttackProgress>)
        ensures
            r@.map_values(|p: AttackProgress| p@) == self.view(),
    {
        let mut r: Vec<AttackProgress> = Vec::new();
        let mut i: usize = 0;
        while i < self.attacks.len()
            invariant
                i <= self.attacks@.len(),
                r@.map_values(|p: AttackProgress| p@) == self.view().take(i as int),
            decreases self.attacks.len() - i,
        {
            let ghost r0 = r@;
            r.push(self.attacks[i].duplicate());
            proof {
                assert(r@.map_values(|p: AttackProgress| p@) =~= r0.map_values(|p: AttackProgress| p@).push(self.view()[i as int]));
                assert(self.view().take(i + 1) =~= self.view().take(i as int).push(self.view()[i as int]));
            }
            i = i + 1;
        }
        proof {
            assert(self.view().take(self.attacks@.len() as int) =~= self.view());
        }
        r
    }

    fn set_status(&mut self, id: &str, s: AttackExecutionStatus) -> (r: Result<(), AttackError>)
        requires
            old(self).wf(),
        ensures
            final(self).wf(),
            ({
                let i = progress_index(old(self).view(), id@);
                &&& i >= 0 ==> r is Ok && final(self).view() == old(self).view().update(i, with_status(old(self).view()[i], s))
                &&& i < 0 ==> (r matches Err(AttackError::InvalidAttackConfig { reason })
                    && reason@ == "Attack "@ + id@ + " not found"@) && final(self).view() == old(self).view()
            }),
    {
        let ghost v0 = self.view();
        match self.find(id) {
            Some(i) => {
                let mut p = self.attacks.remove(i);
                p.status = s;
                self.attacks.insert(i, p);
                proof {
                    assert(self.view() =~= v0.update(i as int, with_status(v0[i as int], s)));
                    assert forall|a: int, b: int| 0 <= a < self.view().len() && 0 <= b < self.view().len() && a != b
                        implies self.view()[a].attack_id != self.view()[b].attack_id by {
                        assert(v0[a].attack_id != v0[b].attack_id);
                    }
                }
                Ok(())
            },
            None => {
                let mut m = owned("Attack ");
                append_str(&mut m, id);
                append_str(&mut m, " not found");
                Err(AttackError::InvalidAttackConfig { reason: m })
            },
        }
    }

    /// Marks an active attack as paused.
    pub fn pause_attack(&mut self, id: &str) -> (r: Result<(), AttackError>)
        requires
            old(self).wf(),
        ensures
            final(self).wf(),
            ({
                let i = progress_index(old(self).view(), id@);
                &&& i >= 0 ==> r is Ok && final(self).view() == old(self).view().update(
                    i,
                    with_status(old(self).view()[i], AttackExecutionStatus::Paused),
                )
                &&& i < 0 ==> (r matches Err(AttackError::InvalidAttackConfig { reason })
                    && reason@ == "Attack "@ + id@ + " not found"@) && final(self).view() == old(self).view()
            }),
    {
        self.set_status(id, AttackExecutionStatus::Paused)
    }

    /// Marks an active attack as running again.
    pub fn resume_attack(&mut self, id: &str) -> (r: Result<(), AttackError>)
        requires
            old(self).wf(),
        ensures
            final(self).wf(),
            ({
                let i = progress_index(old(self).view(), id@);
                &&& i >= 0 ==> r is Ok && final(self).view() == old(self).view().update(
                    i,
                    with_status(old(self).view()[i], AttackExecutionStatus::Running),
                )
                &&& i < 0 ==> (r matches Err(AttackError::InvalidAttackConfig { reason })
                    && reason@ == "Attack "@ + id@ + " not found"@) && final(self).view() == old(self).view()
            }),
    {
        self.set_status(id, AttackExecutionStatus::Running)
    }

    /// Counts one more result of attack `id` and returns its progress.
    pub fn record_result(&mut self, id: &str, now: i64) -> (r: Option<AttackProgress>)
        requires
            old(self).wf(),
            progress_of(old(self).view(), id@) matches Some(p) ==> p.completed_requests < usize::MAX,
        ensures
            final(self).wf(),
            ({
                let i = progress_index(old(self).view(), id@);
                &&& i >= 0 ==> (r matches Some(p) && p@ == after_result(old(self).view()[i], now)
                    && final(self).view() == old(self).view().update(i, p@))
                &&& i < 0 ==> r is None && final(self).view() == old(self).view()
            }),
    {
        let ghost v0 = self.view();
        match self.find(id) {
            Some(i) => {
                let mut p = self.attacks.remove(i);
                p.completed_requests = p.completed_requests + 1;
                if p.completed_requests >= p.total_requests {
                    p.status = AttackExecutionStatus::Completed;
                    p.completed_at = Some(now);
                }
                let out = p.duplicate();
                self.attacks.insert(i, p);
                proof {
                    assert(self.view() =~= v0.update(i as int, out@));
                    assert forall|a: int, b: int| 0 <= a < self.view().len() && 0 <= b < self.view().len() && a != b
                        implies self.view()[a].attack_id != self.view()[b].attack_id by {
                        assert(v0[a].attack_id != v0[b].attack_id);
                    }
                }
                Some(out)
            },
            None => None,
        }
    }

    /// Removes an active attack; returns its final progress, `Cancelled` at `now`.
    pub fn stop_attack(&mut self, id: &str, now: i64) -> (r: Option<AttackProgress>)
        requires
            old(self).wf(),
        ensures
            final(self).wf(),
            ({
                let i = progress_index(old(self).view(), id@);
                &&& i >= 0 ==> (r matches Some(p) && p@ == ProgressView {
                    status: AttackExecutionStatus::Cancelled,
                    completed_at: Some(now),
                    ..old(self).view()[i]
                } && final(self).view() == old(self).view().remove(i))
                &&& i < 0 ==> r is None && final(self).view() == old(self).view()
            }),
    {
        let ghost v0 = self.view();
        match self.find(id) {
            Some(i) => {
                let mut p = self.attacks.remove(i);
                p.status = AttackExecutionStatus::Cancelled;
                p.completed_at = Some(now);
                proof {
                    assert(self.view() =~= v0.remove(i as int));
                    assert forall|a: int, b: int| 0 <= a < self.view().len() && 0 <= b < self.view().len() && a != b
                        implies self.view()[a].attack_id != self.view()[b].attack_id by {
                        let a0 = if a < i { a } else { a + 1 };
                        let b0 = if b < i { b } else { b + 1 };
                        assert(v0[a0].attack_id != v0[b0].attack_id);
                    }
                }
                Some(p)
            },
            None => None,
        }
    }
}

/// Resuming a paused attack makes it run again, whatever its status was.
pub proof fn law_pause_then_resume(v: Seq<ProgressView>, id: Seq<char>)
    requires
        progress_index(v, id) >= 0,
    ensures
        ({
            let i = progress_index(v, id);
            let paused = v.update(i, with_status(v[i], AttackExecutionStatus::Paused));
            let j = progress_index(paused, id);
            &&& j == i
            &&& paused.update(j, with_status(paused[j], AttackExecutionStatus::Running))[i] == with_status(
                v[i],
                AttackExecutionStatus::Running,
            )
        }),
{
    let i = progress_index(v, id);
    let paused = v.update(i, with_status(v[i], AttackExecutionStatus::Paused));
    lemma_progress_index(v, id);
    lemma_progress_index(paused, id);
    let j = progress_index(paused, id);
    if j >= 0 && j < i {
        assert(paused[j] == v[j]);
    }
    if j < 0 {
        assert(paused[i].attack_id == id);
    }
    if j > i {
        assert(paused[i].attack_id == id);
    }
}

/// Once a result brings the completed count up to the total, the attack is
/// complete.
pub proof fn law_complete_when_all_done(p: ProgressView, now: i64)
    requires
        p.completed_requests + 1 >= p.total_requests,
    ensures
        after_result(p, now).status == AttackExecutionStatus::Completed,
        after_result(p, now).completed_at == Some(now),
        after_result(p, now).completed_requests == p.completed_requests + 1,
{
}

/// Recording a result adds exactly one completed request and changes nothing
/// else but the completion: the attack becomes `Completed` at that moment
/// exactly when the completed requests reach the total; before that its status
/// and completion time stay as they were.
pub proof fn law_result_completes_at_total(p: ProgressView, now: i64)
    ensures
        after_result(p, now).completed_requests == p.completed_requests + 1,
        after_result(p, now).attack_id == p.attack_id,
        after_result(p, now).total_requests == p.total_requests,
        after_result(p, now).successful_requests == p.successful_requests,
        after_result(p, now).failed_requests == p.failed_requests,
        after_result(p, now).highlighted_results == p.highlighted_results,
        after_result(p, now).agent_statistics == p.agent_statistics,
        after_result(p, now).started_at == p.started_at,
        p.completed_requests + 1 >= p.total_requests ==> after_result(p, now).status == AttackExecutionStatus::Completed
            && after_result(p, now).completed_at == Some(now),
        p.completed_requests + 1 < p.total_requests ==> after_result(p, now).status == p.status
            && after_result(p, now).completed_at == p.completed_at,
{
}

} // verus!
