//! Payload distribution across agents: round-robin and batch assignment,
//! the checks every distribution starts with, and the merge of
//! redistributed payloads after an agent fails.

use vstd::prelude::*;
use crate::engine::{AgentInfo, AgentStatus, AttackError, DistributionStrategy};
use crate::text::{owned, str_eq};

verus! {

/// The payloads assigned to one agent; indices refer to the original payload list.
#[derive(Debug)]
pub struct PayloadAssignment {
    pub agent_id: String,
    pub payloads: Vec<String>,
    pub start_index: usize,
    pub end_index: usize,
    /// 1-10, higher is more important.
    pub priority: u8,
}

/// The default priority of an assignment.
pub const DEFAULT_PRIORITY: u8 = 5;

/// The ids of the agents, in order.
pub open spec fn ids_of(agents: Seq<AgentInfo>) -> Seq<Seq<char>> {
    agents.map_values(|a: AgentInfo| a.id@)
}

/// The agent id that round-robin gives payload position `i` to.
pub open spec fn agent_for(ids: Seq<Seq<char>>, i: int) -> Seq<char> {
    ids[i % ids.len() as int]
}

/// The payload positions below `n` that round-robin gives to agent id `x`
/// (position `i` goes to the agent at `i mod len`), in increasing order.
pub open spec fn rr_indices(ids: Seq<Seq<char>>, n: nat, x: Seq<char>) -> Seq<int>
    decreases n,
{
    if n == 0 {
        Seq::empty()
    } else {
        let s = rr_indices(ids, (n - 1) as nat, x);
        if agent_for(ids, n - 1) == x {
            s.push(n - 1)
        } else {
            s
        }
    }
}

/// An assignment is the round-robin share of its agent among the first `n` payloads:
/// the payloads at that agent's positions, in order, from its first to its last position.
pub open spec fn rr_share(a: PayloadAssignment, ids: Seq<Seq<char>>, payloads: Seq<String>, n: nat) -> bool {
    let idx = rr_indices(ids, n, a.agent_id@);
    &&& idx.len() > 0
    &&& a.payloads@ == idx.map_values(|i: int| payloads[i])
    &&& a.start_index == idx[0]
    &&& a.end_index == idx.last()
    &&& a.priority == DEFAULT_PRIORITY
}

/// The assignments are round-robin over `ids` for the first `n` payloads: one
/// assignment per agent id that receives a payload, no id twice, each holding
/// exactly its share.
pub open spec fn is_round_robin(
    r: Seq<PayloadAssignment>,
    ids: Seq<Seq<char>>,
    payloads: Seq<String>,
    n: nat,
) -> bool {
    &&& forall|k: int| 0 <= k < r.len() ==> rr_share(#[trigger] r[k], ids, payloads, n)
    &&& forall|k1: int, k2: int|
        0 <= k1 < r.len() && 0 <= k2 < r.len() && k1 != k2 ==> (#[trigger] r[k1]).agent_id@ != (
        #[trigger] r[k2]).agent_id@
    &&& forall|i: int|
        0 <= i < n ==> exists|k: int| 0 <= k < r.len() && (#[trigger] r[k]).agent_id@ == #[trigger] agent_for(ids, i)
}

proof fn lemma_rr_indices_bounds(ids: Seq<Seq<char>>, n: nat, x: Seq<char>)
    requires
        ids.len() > 0,
    ensures
        forall|j: int| 0 <= j < rr_indices(ids, n, x).len() ==> 0 <= #[trigger] rr_indices(ids, n, x)[j] < n
            && agent_for(ids, rr_indices(ids, n, x)[j]) == x,
    decreases n,
{
    if n > 0 {
        lemma_rr_indices_bounds(ids, (n - 1) as nat, x);
        let s = rr_indices(ids, (n - 1) as nat, x);
        let r = rr_indices(ids, n, x);
        assert forall|j: int| 0 <= j < r.len() implies 0 <= #[trigger] r[j] < n && agent_for(ids, r[j]) == x by {
            if j < s.len() {
                assert(r[j] == s[j]);
            }
        }
    }
}

/// Spreads payloads over agents in turn: payload `i` goes to agent `i mod len`,
/// and all payloads of one agent id form one assignment.
pub fn distribute_round_robin(payloads: &Vec<String>, agents: &[AgentInfo]) -> (r: Vec<PayloadAssignment>)
    requires
        agents@.len() > 0,
    ensures
        is_round_robin(r@, ids_of(agents@), payloads@, payloads@.len()),
{
    let ghost ids = ids_of(agents@);
    let m = agents.len();
    let mut res: Vec<PayloadAssignment> = Vec::new();
    let mut i: usize = 0;
    while i < payloads.len()
        invariant
            m == agents@.len(),
            m > 0,
            ids == ids_of(agents@),
            ids.len() == m,
            i <= payloads@.len(),
            is_round_robin(res@, ids, payloads@, i as nat),
        decreases payloads.len() - i,
    {
        let a = i % m;
        let ghost x = ids[a as int];
        assert(agents@[a as int].id@ == x);
        proof {
            lemma_rr_indices_bounds(ids, i as nat, x);
        }
        let mut j: usize = 0;
        while j < res.len() && !(res[j].agent_id == agents[a].id)
            invariant
                j <= res@.len(),
                forall|t: int| 0 <= t < j ==> (#[trigger] res@[t]).agent_id@ != x,
                a < agents@.len(),
                agents@[a as int].id@ == x,
            decreases res.len() - j,
        {
            j = j + 1;
        }
        let p = payloads[i].clone();
        let ghost old_res = res@;
        if j < res.len() {
            let mut e = res.remove(j);
            proof {
                assert(e == old_res[j as int]);
                assert(rr_share(e, ids, payloads@, i as nat));
            }
            let ghost idx = rr_indices(ids, i as nat, x);
            e.payloads.push(p);
            e.end_index = i;
            proof {
                let idx2 = rr_indices(ids, (i + 1) as nat, x);
                assert(idx2 == idx.push(i as int));
                assert(e.payloads@ =~= idx2.map_values(|t: int| payloads@[t]));
            }
            res.insert(j, e);
        } else {
            let mut v: Vec<String> = Vec::new();
            v.push(p);
            let e = PayloadAssignment {
                agent_id: agents[a].id.clone(),
                payloads: v,
                start_index: i,
                end_index: i,
                priority: DEFAULT_PRIORITY,
            };
            proof {
                let idx = rr_indices(ids, i as nat, x);
                assert(idx.len() == 0) by {
                    if idx.len() > 0 {
                        let t = idx[0];
                        assert(0 <= t < i && agent_for(ids, t) == x);
                        let k = choose|k: int| 0 <= k < old_res.len() && (#[trigger] old_res[k]).agent_id@ == agent_for(ids, t);
                        assert(old_res[k].agent_id@ == x);
                    }
                }
                let idx2 = rr_indices(ids, (i + 1) as nat, x);
                assert(idx2 =~= seq![i as int]);
                assert(e.payloads@ =~= idx2.map_values(|t: int| payloads@[t]));
            }
            res.push(e);
        }
        proof {
            let n2 = (i + 1) as nat;
            let r2 = res@;
            assert forall|k: int| 0 <= k < r2.len() implies rr_share(#[trigger] r2[k], ids, payloads@, n2) by {
                if j < old_res.len() {
                    if k != j {
                        assert(r2[k] == old_res[k]);
                        assert(r2[k].agent_id@ != x);
                        assert(rr_indices(ids, n2, r2[k].agent_id@) == rr_indices(ids, i as nat, r2[k].agent_id@));
                    }
                } else {
                    if k < old_res.len() {
                        assert(r2[k] == old_res[k]);
                        assert(r2[k].agent_id@ != x);
                        assert(rr_indices(ids, n2, r2[k].agent_id@) == rr_indices(ids, i as nat, r2[k].agent_id@));
                    }
                }
            }
            assert forall|k1: int, k2: int|
                0 <= k1 < r2.len() && 0 <= k2 < r2.len() && k1 != k2 implies (#[trigger] r2[k1]).agent_id@
                != (#[trigger] r2[k2]).agent_id@ by {
                if j < old_res.len() {
                    if k1 != j && k2 != j {
                        assert(r2[k1] == old_res[k1] && r2[k2] == old_res[k2]);
                    } else if k1 == j {
                        assert(r2[k1].agent_id@ == old_res[j as int].agent_id@);
                        assert(r2[k2] == old_res[k2]);
                    } else {
                        assert(r2[k2].agent_id@ == old_res[j as int].agent_id@);
                        assert(r2[k1] == old_res[k1]);
                    }
                } else {
                    if k1 < old_res.len() && k2 < old_res.len() {
                        assert(r2[k1] == old_res[k1] && r2[k2] == old_res[k2]);
                    } else if k1 < old_res.len() {
                        assert(r2[k1] == old_res[k1]);
                    } else {
                        assert(r2[k2] == old_res[k2]);
                    }
                }
            }
            assert forall|t: int| 0 <= t < n2 implies exists|k: int|
                0 <= k < r2.len() && (#[trigger] r2[k]).agent_id@ == #[trigger] agent_for(ids, t) by {
                if t == i {
                    if j < old_res.len() {
                        assert(r2[j as int].agent_id@ == x);
                    } else {
                        assert(r2[old_res.len() as int].agent_id@ == x);
                    }
                } else {
                    let k = choose|k: int| 0 <= k < old_res.len() && (#[trigger] old_res[k]).agent_id@ == agent_for(ids, t);
                    if j < old_res.len() {
                        if k == j {
                            assert(r2[k].agent_id@ == old_res[k].agent_id@);
                        } else {
                            assert(r2[k] == old_res[k]);
                        }
                    } else {
                        assert(r2[k] == old_res[k]);
                    }
                }
            }
        }
        i = i + 1;
    }
    res
}

/// The batch size actually used (a zero size counts as one).
pub open spec fn effective_batch(batch_size: usize) -> nat {
    if batch_size == 0 {
        1
    } else {
        batch_size as nat
    }
}

/// The assignments cut the payloads into consecutive batches of `b` (the last may
/// be shorter), batch `j` going to agent `j mod len` with the default priority.
pub open spec fn is_batched(
    r: Seq<PayloadAssignment>,
    ids: Seq<Seq<char>>,
    payloads: Seq<String>,
    b: nat,
) -> bool {
    let n = payloads.len();
    &&& r.len() * b >= n
    &&& r.len() > 0 ==> (r.len() - 1) * b < n
    &&& forall|j: int|
        0 <= j < r.len() ==> {
            let start = j * b;
            let end = if (j + 1) * b <= n { (j + 1) * b } else { n as int };
            &&& (#[trigger] r[j]).agent_id@ == agent_for(ids, j)
            &&& r[j].payloads@ == payloads.subrange(start, end)
            &&& r[j].start_index == start
            &&& r[j].end_index == end - 1
            &&& r[j].priority == DEFAULT_PRIORITY
        }
}

/// Cuts the payloads into consecutive batches of `batch_size` (at least one) and
/// hands the batches to the agents in turn.
pub fn distribute_batch(payloads: &Vec<String>, agents: &[AgentInfo], batch_size: usize) -> (r: Vec<PayloadAssignment>)
    requires
        agents@.len() > 0,
    ensures
        is_batched(r@, ids_of(agents@), payloads@, effective_batch(batch_size)),
{
    let b: usize = if batch_size == 0 { 1 } else { batch_size };
    let ghost ids = ids_of(agents@);
    let n = payloads.len();
    let m = agents.len();
    let mut res: Vec<PayloadAssignment> = Vec::new();
    let mut start: usize = 0;
    proof {
        assert(res@.len() * b == 0) by (nonlinear_arith)
            requires res@.len() == 0;
    }
    while start < n
        invariant
            b == effective_batch(batch_size),
            b >= 1,
            n == payloads@.len(),
            m == agents@.len(),
            m > 0,
            ids == ids_of(agents@),
            start <= n,
            start <= res@.len() * b,
            start < n ==> start == res@.len() * b,
            res@.len() > 0 ==> (res@.len() - 1) * b < start,
            forall|j: int|
                0 <= j < res@.len() ==> {
                    let st = j * b;
                    let end = if (j + 1) * b <= n { (j + 1) * b } else { n as int };
                    &&& (#[trigger] res@[j]).agent_id@ == agent_for(ids, j)
                    &&& res@[j].payloads@ == payloads@.subrange(st, end)
                    &&& res@[j].start_index == st
                    &&& res@[j].end_index == end - 1
                    &&& res@[j].priority == DEFAULT_PRIORITY
                },
        decreases n - start,
    {
        let j = res.len();
        let end: usize = if b <= n - start { start + b } else { n };
        let mut chunk: Vec<String> = Vec::new();
        let mut t = start;
        while t < end
            invariant
                start <= t <= end <= n,
                n == payloads@.len(),
                chunk@ == payloads@.subrange(start as int, t as int),
            decreases end - t,
        {
            chunk.push(payloads[t].clone());
            t = t + 1;
        }
        let a = j % m;
        assert(agents@[a as int].id@ == agent_for(ids, j as int));
        proof {
            assert((j + 1) * b == j * b + b) by (nonlinear_arith);
        }
        let e = PayloadAssignment {
            agent_id: agents[a].id.clone(),
            payloads: chunk,
            start_index: start,
            end_index: end - 1,
            priority: DEFAULT_PRIORITY,
        };
        res.push(e);
        proof {
            assert(res@.len() * b == j * b + b) by (nonlinear_arith)
                requires res@.len() == j + 1;
        }
        start = end;
    }
    res
}

/// The online agents, in order.
pub open spec fn online(agents: Seq<AgentInfo>) -> Seq<AgentInfo> {
    agents.filter(|a: AgentInfo| a.status == AgentStatus::Online)
}

/// Copies of the online agents, in order.
pub fn online_agents(agents: &[AgentInfo]) -> (r: Vec<AgentInfo>)
    ensures
        r@ == online(agents@),
{
    let mut r: Vec<AgentInfo> = Vec::new();
    let mut i: usize = 0;
    while i < agents.len()
        invariant
            i <= agents@.len(),
            r@ == online(agents@.subrange(0, i as int)),
        decreases agents.len() - i,
    {
        proof {
            let pred = |a: AgentInfo| a.status == AgentStatus::Online;
            assert(agents@.subrange(0, i + 1) =~= agents@.subrange(0, i as int).push(agents@[i as int]));
            agents@.subrange(0, i as int).lemma_filter_push(agents@[i as int], pred);
        }
        if agents[i].status == AgentStatus::Online {
            r.push(agents[i].duplicate());
        }
        i = i + 1;
    }
    proof {
        assert(agents@.subrange(0, agents@.len() as int) =~= agents@);
    }
    r
}

/// A distribution can start: there are payloads and at least one online agent.
pub open spec fn distribution_allowed(payload_count: nat, agents: Seq<AgentInfo>) -> bool {
    payload_count > 0 && online(agents).len() > 0
}

/// The error a refused distribution gives: no payloads, else no agents, else no
/// online agent.
pub open spec fn is_refusal(e: AttackError, payload_count: nat, agents: Seq<AgentInfo>) -> bool {
    if payload_count == 0 {
        e matches AttackError::InvalidPayloadConfig { reason } && reason@ == "No payloads to distribute"@
    } else if agents.len() == 0 {
        e matches AttackError::AgentUnavailable { agent_id } && agent_id@ == "No agents available"@
    } else {
        e matches AttackError::AgentUnavailable { agent_id } && agent_id@ == "No online agents available"@
    }
}

/// The checks every distribution starts with; on success, the online agents.
pub fn prepare_distribution(payload_count: usize, agents: &[AgentInfo]) -> (r: Result<Vec<AgentInfo>, AttackError>)
    ensures
        r is Ok <==> distribution_allowed(payload_count as nat, agents@),
        r matches Ok(v) ==> v@ == online(agents@),
        r matches Err(e) ==> is_refusal(e, payload_count as nat, agents@),
{
    if payload_count == 0 {
        return Err(AttackError::InvalidPayloadConfig { reason: owned("No payloads to distribute") });
    }
    if agents.len() == 0 {
        proof {
            assert(agents@.filter(|a: AgentInfo| a.status == AgentStatus::Online).len() == 0) by {
                agents@.lemma_filter_len(|a: AgentInfo| a.status == AgentStatus::Online);
            }
        }
        return Err(AttackError::AgentUnavailable { agent_id: owned("No agents available") });
    }
    let on = online_agents(agents);
    if on.len() == 0 {
        return Err(AttackError::AgentUnavailable { agent_id: owned("No online agents available") });
    }
    Ok(on)
}

/// How many payloads one agent takes in a load-balanced distribution, and the
/// priority its assignment gets; the weights behind these numbers are computed
/// from the agents' load figures outside the library.
#[derive(Debug)]
pub struct LoadShare {
    pub agent_id: String,
    pub payload_count: usize,
    pub priority: u8,
}

/// The slices a load-balanced distribution cuts, before the remainder is added:
/// `(share index, start, end)` with `end` exclusive, and the first payload left over.
pub open spec fn share_plan(shares: Seq<LoadShare>, n: nat, k: nat) -> (Seq<(int, int, int)>, int)
    decreases k,
{
    if k == 0 {
        (Seq::empty(), 0)
    } else {
        let (plan, idx) = share_plan(shares, n, (k - 1) as nat);
        let c = shares[k - 1].payload_count;
        if c > 0 && idx < n {
            let end = if idx + c <= n { idx + c } else { n as int };
            (plan.push((k - 1, idx, end)), end)
        } else {
            (plan, idx)
        }
    }
}

/// The assignments follow the load-balanced plan for `shares`: one slice per
/// share that gets payloads, in order; payloads left over after the last share
/// go to the first assignment, whose end index then is the last payload.
pub open spec fn is_share_distribution(r: Seq<PayloadAssignment>, shares: Seq<LoadShare>, payloads: Seq<String>) -> bool {
    let n = payloads.len();
    let (plan, idx) = share_plan(shares, n, shares.len());
    &&& r.len() == plan.len()
    &&& forall|j: int|
        0 <= j < r.len() ==> {
            let (k, st, en) = plan[j];
            let rest = if j == 0 && idx < n { payloads.subrange(idx, n as int) } else { Seq::empty() };
            &&& (#[trigger] r[j]).agent_id@ == shares[k].agent_id@
            &&& r[j].payloads@ == payloads.subrange(st, en) + rest
            &&& r[j].start_index == st
            &&& r[j].end_index == (if j == 0 && idx < n { n - 1 } else { en - 1 })
            &&& r[j].priority == shares[k].priority
        }
}

proof fn lemma_share_plan_bounds(shares: Seq<LoadShare>, n: nat, k: nat)
    requires
        k <= shares.len(),
    ensures
        0 <= share_plan(shares, n, k).1 <= n,
        forall|j: int| 0 <= j < share_plan(shares, n, k).0.len() ==> {
            let (kk, st, en) = #[trigger] share_plan(shares, n, k).0[j];
            0 <= kk < k && 0 <= st < en <= share_plan(shares, n, k).1
        },
    decreases k,
{
    if k > 0 {
        lemma_share_plan_bounds(shares, n, (k - 1) as nat);
    }
}

/// Cuts the payloads into consecutive slices of the sizes the shares ask for
/// (the last slice stops at the end of the list) and hands payloads left over to
/// the first assignment.
pub fn distribute_by_shares(payloads: &Vec<String>, shares: &[LoadShare]) -> (r: Vec<PayloadAssignment>)
    ensures
        is_share_distribution(r@, shares@, payloads@),
{
    let n = payloads.len();
    let mut res: Vec<PayloadAssignment> = Vec::new();
    let mut idx: usize = 0;
    let mut k: usize = 0;
    while k < shares.len()
        invariant
            n == payloads@.len(),
            k <= shares@.len(),
            share_plan(shares@, n as nat, k as nat).1 == idx,
            res@.len() == share_plan(shares@, n as nat, k as nat).0.len(),
            forall|j: int|
                0 <= j < res@.len() ==> {
                    let (kk, st, en) = share_plan(shares@, n as nat, k as nat).0[j];
                    &&& (#[trigger] res@[j]).agent_id@ == shares@[kk].agent_id@
                    &&& res@[j].payloads@ == payloads@.subrange(st, en)
                    &&& res@[j].start_index == st
                    &&& res@[j].end_index == en - 1
                    &&& res@[j].priority == shares@[kk].priority
                },
        decreases shares.len() - k,
    {
        proof {
            lemma_share_plan_bounds(shares@, n as nat, k as nat);
        }
        let c = shares[k].payload_count;
        if c > 0 && idx < n {
            let end: usize = if c <= n - idx { idx + c } else { n };
            let mut chunk: Vec<String> = Vec::new();
            let mut t = idx;
            while t < end
                invariant
                    idx <= t <= end <= n,
                    n == payloads@.len(),
                    chunk@ == payloads@.subrange(idx as int, t as int),
                decreases end - t,
            {
                chunk.push(payloads[t].clone());
                t = t + 1;
            }
            res.push(PayloadAssignment {
                agent_id: shares[k].agent_id.clone(),
                payloads: chunk,
                start_index: idx,
                end_index: end - 1,
                priority: shares[k].priority,
            });
            idx = end;
        }
        k = k + 1;
    }
    proof {
        lemma_share_plan_bounds(shares@, n as nat, k as nat);
    }
    let ghost mid = res@;
    if idx < n && res.len() > 0 {
        let mut first = res.remove(0);
        let ghost before = first.payloads@;
        let mut t = idx;
        while t < n
            invariant
                idx <= t <= n,
                n == payloads@.len(),
                first.payloads@ == before + payloads@.subrange(idx as int, t as int),
                first.agent_id == mid[0].agent_id,
                first.start_index == mid[0].start_index,
                first.priority == mid[0].priority,
            decreases n - t,
        {
            first.payloads.push(payloads[t].clone());
            proof {
                assert(payloads@.subrange(idx as int, t + 1) =~= payloads@.subrange(idx as int, t as int).push(payloads@[t as int]));
            }
            t = t + 1;
        }
        first.end_index = n - 1;
        res.insert(0, first);
        assert(res@[0].payloads@ == mid[0].payloads@ + payloads@.subrange(idx as int, n as int));
        assert(res@[0].agent_id == mid[0].agent_id);
        assert(res@[0].start_index == mid[0].start_index);
        assert(res@[0].priority == mid[0].priority);
        assert(res@[0].end_index == n - 1);
        assert(forall|j: int| 0 < j < res@.len() ==> res@[j] == mid[j]);
    }
    proof {
        assert(shares@.len() == k);
        let plan = share_plan(shares@, n as nat, k as nat).0;
        assert forall|j: int| 0 <= j < res@.len() implies {
            let (kk, st, en) = plan[j];
            let rest = if j == 0 && idx < n { payloads@.subrange(idx as int, n as int) } else { Seq::empty() };
            &&& (#[trigger] res@[j]).agent_id@ == shares@[kk].agent_id@
            &&& res@[j].payloads@ == payloads@.subrange(st, en) + rest
            &&& res@[j].start_index == st
            &&& res@[j].end_index == (if j == 0 && idx < n { n - 1 } else { en - 1 })
            &&& res@[j].priority == shares@[kk].priority
        } by {
            if j == 0 && idx < n {
                assert(mid[0].payloads@ == payloads@.subrange(plan[0].1, plan[0].2));
            } else {
                assert(res@[j] == mid[j]);
                assert(mid[j].payloads@ == payloads@.subrange(plan[j].1, plan[j].2));
                assert(payloads@.subrange(plan[j].1, plan[j].2) + Seq::<String>::empty() =~= payloads@.subrange(plan[j].1, plan[j].2));
            }
        }
    }
    res
}

/// The outcome of a distribution: the payload count, the number of online agents
/// used, and the assignments.
#[derive(Debug)]
pub struct DistributionStats {
    pub total_payloads: usize,
    pub total_agents: usize,
    pub assignments: Vec<PayloadAssignment>,
}

/// The assignments are what `strategy` makes of the payloads over the online agents
/// (for a load-balanced distribution, over the given shares).
pub open spec fn is_distribution(
    r: Seq<PayloadAssignment>,
    strategy: DistributionStrategy,
    payloads: Seq<String>,
    agents: Seq<AgentInfo>,
    shares: Seq<LoadShare>,
) -> bool {
    match strategy {
        DistributionStrategy::RoundRobin => is_round_robin(r, ids_of(online(agents)), payloads, payloads.len()),
        DistributionStrategy::Batch { batch_size } => is_batched(r, ids_of(online(agents)), payloads, effective_batch(batch_size)),
        DistributionStrategy::LoadBalanced => is_share_distribution(r, shares, payloads),
    }
}

/// Load shares fit for a distribution over these agents: each names an online
/// agent (as the shares computed from the online agents' weights do).
pub open spec fn shares_for_online(shares: Seq<LoadShare>, agents: Seq<AgentInfo>) -> bool {
    forall|k: int| 0 <= k < shares.len() ==> ids_of(online(agents)).contains(#[trigger] shares[k].agent_id@)
}

/// Every assignment goes to an online agent.
pub open spec fn assigned_to_online(r: Seq<PayloadAssignment>, agents: Seq<AgentInfo>) -> bool {
    forall|j: int| 0 <= j < r.len() ==> ids_of(online(agents)).contains((#[trigger] r[j]).agent_id@)
}

/// Distributes the payloads over the online agents with the given strategy, after
/// the checks of `prepare_distribution`. A load-balanced distribution follows the
/// shares computed for the online agents.
pub fn distribute_payloads(
    payloads: Vec<String>,
    agents: &[AgentInfo],
    strategy: &DistributionStrategy,
    shares: &[LoadShare],
) -> (r: Result<DistributionStats, AttackError>)
    requires
        *strategy is LoadBalanced ==> shares_for_online(shares@, agents@),
    ensures
        r is Ok <==> distribution_allowed(payloads@.len(), agents@),
        r matches Err(e) ==> is_refusal(e, payloads@.len(), agents@),
        r matches Ok(st) ==> {
            &&& st.total_payloads == payloads@.len()
            &&& st.total_agents == online(agents@).len()
            &&& is_distribution(st.assignments@, *strategy, payloads@, agents@, shares@)
            &&& assigned_to_online(st.assignments@, agents@)
        },
{
    let on = match prepare_distribution(payloads.len(), agents) {
        Ok(v) => v,
        Err(e) => return Err(e),
    };
    let ghost ids = ids_of(on@);
    let assignments = match strategy {
        DistributionStrategy::RoundRobin => {
            let a = distribute_round_robin(&payloads, on.as_slice());
            proof {
                assert forall|j: int| 0 <= j < a@.len() implies ids.contains((#[trigger] a@[j]).agent_id@) by {
                    assert(rr_share(a@[j], ids, payloads@, payloads@.len()));
                    lemma_rr_indices_bounds(ids, payloads@.len(), a@[j].agent_id@);
                    let i = rr_indices(ids, payloads@.len(), a@[j].agent_id@)[0];
                    assert(agent_for(ids, i) == a@[j].agent_id@);
                    assert(ids[i % ids.len() as int] == a@[j].agent_id@);
                }
            }
            a
        },
        DistributionStrategy::Batch { batch_size } => {
            let a = distribute_batch(&payloads, on.as_slice(), *batch_size);
            proof {
                assert forall|j: int| 0 <= j < a@.len() implies ids.contains((#[trigger] a@[j]).agent_id@) by {
                    assert(agent_for(ids, j) == a@[j].agent_id@);
                    assert(ids[j % ids.len() as int] == a@[j].agent_id@);
                }
            }
            a
        },
        DistributionStrategy::LoadBalanced => {
            let a = distribute_by_shares(&payloads, shares);
            proof {
                let (plan, idx) = share_plan(shares@, payloads@.len(), shares@.len());
                lemma_share_plan_bounds(shares@, payloads@.len(), shares@.len());
                assert forall|j: int| 0 <= j < a@.len() implies ids.contains((#[trigger] a@[j]).agent_id@) by {
                    let kk = plan[j].0;
                    assert(0 <= kk < shares@.len());
                    assert(a@[j].agent_id@ == shares@[kk].agent_id@);
                }
            }
            a
        },
    };
    Ok(DistributionStats { total_payloads: payloads.len(), total_agents: on.len(), assignments })
}

impl PayloadAssignment {
    /// A copy of this assignment.
    pub fn duplicate(&self) -> (r: PayloadAssignment)
        ensures
            r@ == self@,
    {
        let p = self.payloads.clone();
        proof {
            assert(p@ =~= self.payloads@);
        }
        PayloadAssignment {
            agent_id: self.agent_id.clone(),
            payloads: p,
            start_index: self.start_index,
            end_index: self.end_index,
            priority: self.priority,
        }
    }
}

/// Finds the first assignment of agent `id`.
pub fn find_agent_assignment(r: &Vec<PayloadAssignment>, id: &str) -> (k: Option<usize>)
    ensures
        match k {
            Some(i) => i == first_view_of(views(r@), id@) && i < r@.len(),
            None => first_view_of(views(r@), id@) < 0,
        },
{
    let ghost v = views(r@);
    proof {
        lemma_first_view_of(v, id@);
    }
    let mut i: usize = 0;
    while i < r.len()
        invariant
            i <= r@.len(),
            v == views(r@),
            forall|t: int| 0 <= t < i ==> r@[t].agent_id@ != id@,
            -1 <= first_view_of(v, id@) < v.len(),
            first_view_of(v, id@) >= 0 ==> v[first_view_of(v, id@)].agent_id == id@,
            first_view_of(v, id@) >= 0 ==> forall|t: int| 0 <= t < first_view_of(v, id@) ==> v[t].agent_id != id@,
            first_view_of(v, id@) < 0 ==> forall|t: int| 0 <= t < v.len() ==> v[t].agent_id != id@,
        decreases r.len() - i,
    {
        if str_eq(r[i].agent_id.as_str(), id) {
            proof {
                assert(v[i as int].agent_id == id@);
                let f = first_view_of(v, id@);
                assert(f >= 0);
                if f < i {
                    assert(v[f].agent_id == r@[f].agent_id@);
                }
                if f > i {
                    assert(v[i as int].agent_id != id@);
                }
            }
            return Some(i);
        }
        i = i + 1;
    }
    proof {
        let f = first_view_of(v, id@);
        if f >= 0 {
            assert(v[f].agent_id == r@[f].agent_id@);
        }
    }
    None
}

/// The mathematical value of an assignment.
pub struct AssignmentView {
    pub agent_id: Seq<char>,
    pub payloads: Seq<String>,
    pub start_index: int,
    pub end_index: int,
    pub priority: u8,
}

impl View for PayloadAssignment {
    type V = AssignmentView;

    open spec fn view(&self) -> AssignmentView {
        AssignmentView {
            agent_id: self.agent_id@,
            payloads: self.payloads@,
            start_index: self.start_index as int,
            end_index: self.end_index as int,
            priority: self.priority,
        }
    }
}

/// The views of a list of assignments.
pub open spec fn views(r: Seq<PayloadAssignment>) -> Seq<AssignmentView> {
    r.map_values(|a: PayloadAssignment| a@)
}

/// Position of the first view of agent `id`, or -1.
pub open spec fn first_view_of(r: Seq<AssignmentView>, id: Seq<char>) -> int
    decreases r.len(),
{
    if r.len() == 0 {
        -1
    } else if r[0].agent_id == id {
        0
    } else {
        let k = first_view_of(r.drop_first(), id);
        if k < 0 { -1 } else { k + 1 }
    }
}

proof fn lemma_first_view_of(r: Seq<AssignmentView>, id: Seq<char>)
    ensures
        -1 <= first_view_of(r, id) < r.len(),
        first_view_of(r, id) >= 0 ==> r[first_view_of(r, id)].agent_id == id,
        first_view_of(r, id) >= 0 ==> forall|t: int| 0 <= t < first_view_of(r, id) ==> r[t].agent_id != id,
        first_view_of(r, id) < 0 ==> forall|t: int| 0 <= t < r.len() ==> r[t].agent_id != id,
    decreases r.len(),
{
    if r.len() > 0 {
        lemma_first_view_of(r.drop_first(), id);
        assert forall|t: int| 0 < t < r.len() implies r[t] == r.drop_first()[t - 1] by {}
    }
}

/// Merging one redistributed assignment: its payloads join the first assignment
/// of the same agent, whose end index becomes its start plus its new payload
/// count minus one; with no such assignment it is appended.
pub open spec fn merge_one(acc: Seq<AssignmentView>, a: AssignmentView) -> Seq<AssignmentView> {
    let i = first_view_of(acc, a.agent_id);
    if i >= 0 {
        let e = acc[i];
        let p = e.payloads + a.payloads;
        acc.update(i, AssignmentView { payloads: p, end_index: e.start_index + p.len() - 1, ..e })
    } else {
        acc.push(a)
    }
}

/// The first `j` redistributed assignments merged into `kept`, in order.
pub open spec fn merge_upto(kept: Seq<AssignmentView>, extra: Seq<AssignmentView>, j: nat) -> Seq<AssignmentView>
    decreases j,
{
    if j == 0 {
        kept
    } else {
        merge_one(merge_upto(kept, extra, (j - 1) as nat), extra[j - 1])
    }
}

/// Total number of payloads in the assignments.
pub open spec fn payload_total(r: Seq<AssignmentView>) -> nat
    decreases r.len(),
{
    if r.len() == 0 {
        0
    } else {
        r.last().payloads.len() + payload_total(r.drop_last())
    }
}

/// The merge cannot run past the largest index: every kept assignment and every
/// redistributed one stays within `usize` even with all redistributed payloads
/// added, and no redistributed assignment is empty.
pub open spec fn merge_fits(kept: Seq<AssignmentView>, extra: Seq<AssignmentView>) -> bool {
    &&& forall|j: int| 0 <= j < extra.len() ==> (#[trigger] extra[j]).payloads.len() > 0
    &&& forall|i: int| 0 <= i < kept.len() ==> (#[trigger] kept[i]).start_index + kept[i].payloads.len() + payload_total(extra) <= usize::MAX
    &&& forall|j: int| 0 <= j < extra.len() ==> (#[trigger] extra[j]).start_index + payload_total(extra) <= usize::MAX
}

proof fn lemma_payload_total_take(extra: Seq<AssignmentView>, j: int)
    requires
        0 <= j < extra.len(),
    ensures
        payload_total(extra.take(j + 1)) == payload_total(extra.take(j)) + extra[j].payloads.len(),
        payload_total(extra.take(j + 1)) <= payload_total(extra),
    decreases extra.len() - j,
{
    assert(extra.take(j + 1).drop_last() =~= extra.take(j));
    if j + 1 < extra.len() {
        lemma_payload_total_take(extra, j + 1);
    } else {
        assert(extra.take(j + 1) =~= extra);
    }
}

/// Merges redistributed assignments into the kept ones (see `merge_one`).
pub fn merge_assignments(kept: Vec<PayloadAssignment>, extra: Vec<PayloadAssignment>) -> (r: Vec<PayloadAssignment>)
    requires
        merge_fits(views(kept@), views(extra@)),
    ensures
        views(r@) == merge_upto(views(kept@), views(extra@), extra@.len()),
{
    let ghost kv = views(kept@);
    let ghost ev = views(extra@);
    let mut res = kept;
    let mut extra = extra;
    let ghost all_extra = extra@;
    assert(all_extra.len() == extra.len());
    let mut rev: Vec<PayloadAssignment> = Vec::new();
    while extra.len() > 0
        invariant
            rev@.len() + extra@.len() == all_extra.len(),
            all_extra.len() <= usize::MAX,
            forall|t: int| 0 <= t < extra@.len() ==> extra@[t] == all_extra[t],
            forall|t: int| 0 <= t < rev@.len() ==> rev@[t] == all_extra[all_extra.len() - 1 - t],
        decreases extra.len(),
    {
        let a = extra.pop().unwrap();
        rev.push(a);
    }
    let mut j: usize = 0;
    proof {
        assert(ev.take(0) =~= Seq::<AssignmentView>::empty());
        assert forall|i: int| 0 <= i < res@.len() implies
            (#[trigger] res@[i]).start_index + res@[i].payloads@.len() + payload_total(ev) - payload_total(ev.take(0)) <= usize::MAX by {
            assert(kv[i] == res@[i]@);
        }
    }
    while rev.len() > 0
        invariant
            j + rev@.len() == all_extra.len(),
            all_extra.len() <= usize::MAX,
            ev == views(all_extra),
            forall|t: int| 0 <= t < rev@.len() ==> rev@[t] == all_extra[all_extra.len() - 1 - t],
            views(res@) == merge_upto(kv, ev, j as nat),
            merge_fits(kv, ev),
            forall|i: int| 0 <= i < res@.len() ==>
                (#[trigger] res@[i]).start_index + res@[i].payloads@.len() + payload_total(ev) - payload_total(ev.take(j as int)) <= usize::MAX,
        decreases rev.len(),
    {
        let a = rev.pop().unwrap();
        proof {
            assert(a == all_extra[j as int]);
            assert(ev[j as int] == a@);
            lemma_payload_total_take(ev, j as int);
            assert(ev[j as int].payloads.len() > 0);
            assert(ev[j as int].start_index + payload_total(ev) <= usize::MAX);
        }
        let ghost before = res@;
        let ghost tj = payload_total(ev.take(j as int));
        match find_agent_assignment(&res, a.agent_id.as_str()) {
            Some(i) => {
                let mut e = res.remove(i);
                let ghost e0 = e;
                assert(e0 == before[i as int]);
                let mut p = a.payloads;
                e.payloads.append(&mut p);
                e.end_index = e.start_index + e.payloads.len() - 1;
                res.insert(i, e);
                proof {
                    assert(views(res@) =~= views(before).update(i as int, res@[i as int]@));
                    assert forall|t: int| 0 <= t < res@.len() implies
                        (#[trigger] res@[t]).start_index + res@[t].payloads@.len() + payload_total(ev) - payload_total(ev.take(j + 1)) <= usize::MAX by {
                        if t != i {
                            assert(res@[t] == before[t]);
                        }
                    }
                }
            },
            None => {
                res.push(a);
                proof {
                    assert(views(res@) =~= views(before).push(a@));
                    assert forall|t: int| 0 <= t < res@.len() implies
                        (#[trigger] res@[t]).start_index + res@[t].payloads@.len() + payload_total(ev) - payload_total(ev.take(j + 1)) <= usize::MAX by {
                        if t < before.len() {
                            assert(res@[t] == before[t]);
                        }
                    }
                }
            },
        }
        j = j + 1;
    }
    res
}

/// Total length of the slices of a plan.
pub open spec fn plan_len(plan: Seq<(int, int, int)>) -> int
    decreases plan.len(),
{
    if plan.len() == 0 {
        0
    } else {
        plan.last().2 - plan.last().1 + plan_len(plan.drop_last())
    }
}

proof fn lemma_plan_len(shares: Seq<LoadShare>, n: nat, k: nat)
    requires
        k <= shares.len(),
    ensures
        plan_len(share_plan(shares, n, k).0) == share_plan(shares, n, k).1,
    decreases k,
{
    if k > 0 {
        lemma_plan_len(shares, n, (k - 1) as nat);
        let (plan, idx) = share_plan(shares, n, (k - 1) as nat);
        let c = shares[k - 1].payload_count;
        if c > 0 && idx < n {
            let end = if idx + c <= n { idx + c } else { n as int };
            assert(plan.push((k - 1, idx, end)).drop_last() =~= plan);
        }
    }
}

/// A load-balanced distribution hands out non-empty assignments that start
/// within the payload list and together hold at most all of its payloads.
proof fn lemma_share_distribution_sizes(r: Seq<PayloadAssignment>, shares: Seq<LoadShare>, payloads: Seq<String>)
    requires
        is_share_distribution(r, shares, payloads),
    ensures
        payload_total(views(r)) <= payloads.len(),
        forall|j: int| 0 <= j < r.len() ==> (#[trigger] r[j]).payloads@.len() > 0 && r[j].start_index <= payloads.len(),
{
    let n = payloads.len();
    let (plan, idx) = share_plan(shares, n, shares.len());
    lemma_share_plan_bounds(shares, n, shares.len());
    lemma_plan_len(shares, n, shares.len());
    let v = views(r);
    let extra: int = if idx < n && r.len() > 0 { n - idx } else { 0 };
    assert forall|m: int| 0 <= m <= r.len() implies payload_total(#[trigger] v.take(m)) == plan_len(plan.take(m)) + (if m > 0 { extra } else { 0 }) by {
        lemma_prefix_total(r, shares, payloads, m);
    }
    assert(v.take(r.len() as int) =~= v);
    assert(plan.take(plan.len() as int) =~= plan);
}

proof fn lemma_prefix_total(r: Seq<PayloadAssignment>, shares: Seq<LoadShare>, payloads: Seq<String>, m: int)
    requires
        is_share_distribution(r, shares, payloads),
        0 <= m <= r.len(),
    ensures
        ({
            let n = payloads.len();
            let (plan, idx) = share_plan(shares, n, shares.len());
            let extra: int = if idx < n && r.len() > 0 { n - idx } else { 0 };
            payload_total(views(r).take(m)) == plan_len(plan.take(m)) + (if m > 0 { extra } else { 0 })
        }),
    decreases m,
{
    let n = payloads.len();
    let (plan, idx) = share_plan(shares, n, shares.len());
    lemma_share_plan_bounds(shares, n, shares.len());
    let v = views(r);
    if m > 0 {
        lemma_prefix_total(r, shares, payloads, m - 1);
        assert(v.take(m).drop_last() =~= v.take(m - 1));
        assert(plan.take(m).drop_last() =~= plan.take(m - 1));
        let j = m - 1;
        assert(r[j].payloads@ == payloads.subrange(plan[j].1, plan[j].2) + (if j == 0 && idx < n { payloads.subrange(idx, n as int) } else { Seq::empty() }));
    } else {
        assert(v.take(0) =~= Seq::<AssignmentView>::empty());
        assert(plan.take(0) =~= Seq::<(int, int, int)>::empty());
    }
}


/// A load-balanced distribution that hands out any assignment hands out every
/// payload: the assignments together hold exactly as many payloads as were given.
pub proof fn law_share_distribution_covers_payloads(
    r: Seq<PayloadAssignment>,
    shares: Seq<LoadShare>,
    payloads: Seq<String>,
)
    requires
        is_share_distribution(r, shares, payloads),
        r.len() > 0,
    ensures
        payload_total(views(r)) == payloads.len(),
{
    let n = payloads.len();
    let (plan, idx) = share_plan(shares, n, shares.len());
    lemma_share_plan_bounds(shares, n, shares.len());
    lemma_plan_len(shares, n, shares.len());
    lemma_prefix_total(r, shares, payloads, r.len() as int);
    assert(views(r).take(r.len() as int) =~= views(r));
    assert(plan.take(plan.len() as int) =~= plan);
}

proof fn lemma_payload_total_update(s: Seq<AssignmentView>, i: int, x: AssignmentView)
    requires
        0 <= i < s.len(),
    ensures
        payload_total(s.update(i, x)) + s[i].payloads.len() == payload_total(s) + x.payloads.len(),
    decreases s.len(),
{
    let u = s.update(i, x);
    if i == s.len() - 1 {
        assert(u.drop_last() =~= s.drop_last());
    } else {
        lemma_payload_total_update(s.drop_last(), i, x);
        assert(u.drop_last() =~= s.drop_last().update(i, x));
    }
}

proof fn lemma_merge_total(kept: Seq<AssignmentView>, extra: Seq<AssignmentView>, j: nat)
    requires
        j <= extra.len(),
    ensures
        payload_total(merge_upto(kept, extra, j)) == payload_total(kept) + payload_total(extra.take(j as int)),
    decreases j,
{
    if j == 0 {
        assert(extra.take(0) =~= Seq::<AssignmentView>::empty());
    } else {
        lemma_merge_total(kept, extra, (j - 1) as nat);
        let acc = merge_upto(kept, extra, (j - 1) as nat);
        let a = extra[j - 1];
        lemma_first_view_of(acc, a.agent_id);
        let i = first_view_of(acc, a.agent_id);
        if i >= 0 {
            let e = acc[i];
            let p = e.payloads + a.payloads;
            lemma_payload_total_update(acc, i, AssignmentView { payloads: p, end_index: e.start_index + p.len() - 1, ..e });
        } else {
            assert(acc.push(a).drop_last() =~= acc);
        }
        assert(extra.take(j as int).drop_last() =~= extra.take(j - 1));
    }
}

/// Number of assignments of agent `id`.
pub open spec fn assignment_count(r: Seq<AssignmentView>, id: Seq<char>) -> nat
    decreases r.len(),
{
    if r.len() == 0 {
        0
    } else {
        assignment_count(r.drop_last(), id) + if r.last().agent_id == id { 1nat } else { 0nat }
    }
}

proof fn lemma_filter_total(r: Seq<AssignmentView>, id: Seq<char>)
    requires
        assignment_count(r, id) == 1,
    ensures
        ({
            let f = first_view_of(r, id);
            &&& 0 <= f < r.len()
            &&& payload_total(r.filter(|a: AssignmentView| a.agent_id != id)) + r[f].payloads.len() == payload_total(r)
        }),
    decreases r.len(),
{
    let pred = |a: AssignmentView| a.agent_id != id;
    let d = r.drop_last();
    assert(r =~= d.push(r.last()));
    d.lemma_filter_push(r.last(), pred);
    lemma_first_view_of(r, id);
    lemma_first_view_of(d, id);
    if r.last().agent_id == id {
        lemma_no_assignment_filter(d, id);
        assert(first_view_of(d, id) < 0) by {
            if first_view_of(d, id) >= 0 {
                lemma_count_positive(d, id, first_view_of(d, id));
            }
        }
        assert(forall|t: int| 0 <= t < d.len() ==> r[t] == d[t]);
        assert(first_view_of(r, id) == r.len() - 1);
        assert(r.filter(pred) == d);
        assert(payload_total(r) == r.last().payloads.len() + payload_total(d));
    } else {
        lemma_filter_total(d, id);
        assert(forall|t: int| 0 <= t < d.len() ==> r[t] == d[t]);
        let fd = first_view_of(d, id);
        assert(r[fd].agent_id == id);
        assert(first_view_of(r, id) == fd);
        let fl = d.filter(pred);
        assert(r.filter(pred) == fl.push(r.last()));
        assert(fl.push(r.last()).drop_last() =~= fl);
        assert(payload_total(fl.push(r.last())) == r.last().payloads.len() + payload_total(fl));
    }
}

proof fn lemma_count_positive(r: Seq<AssignmentView>, id: Seq<char>, t: int)
    requires
        0 <= t < r.len(),
        r[t].agent_id == id,
    ensures
        assignment_count(r, id) > 0,
    decreases r.len(),
{
    if t < r.len() - 1 {
        lemma_count_positive(r.drop_last(), id, t);
    }
}

proof fn lemma_no_assignment_filter(r: Seq<AssignmentView>, id: Seq<char>)
    requires
        assignment_count(r, id) == 0,
    ensures
        r.filter(|a: AssignmentView| a.agent_id != id) == r,
    decreases r.len(),
{
    let pred = |a: AssignmentView| a.agent_id != id;
    if r.len() > 0 {
        let d = r.drop_last();
        lemma_no_assignment_filter(d, id);
        assert(r =~= d.push(r.last()));
        d.lemma_filter_push(r.last(), pred);
    } else {
        assert(r.filter(pred) =~= r) by {
            reveal(Seq::filter);
        }
    }
}

/// Moving a failed agent's payloads to the others loses none: when the failed
/// agent had one assignment and its payloads were spread along shares that
/// hand out any assignment, the merged assignments hold as many payloads as
/// before.
pub proof fn law_redistribution_keeps_payloads(
    orig: Seq<AssignmentView>,
    failed: Seq<char>,
    extra: Seq<PayloadAssignment>,
    shares: Seq<LoadShare>,
)
    requires
        assignment_count(orig, failed) == 1,
        is_share_distribution(extra, shares, orig[first_view_of(orig, failed)].payloads),
        extra.len() > 0,
    ensures
        payload_total(
            merge_upto(orig.filter(|a: AssignmentView| a.agent_id != failed), views(extra), extra.len()),
        ) == payload_total(orig),
{
    lemma_filter_total(orig, failed);
    law_share_distribution_covers_payloads(extra, shares, orig[first_view_of(orig, failed)].payloads);
    lemma_merge_total(orig.filter(|a: AssignmentView| a.agent_id != failed), views(extra), extra.len());
    assert(views(extra).take(extra.len() as int) =~= views(extra));
}


proof fn lemma_batch_prefix_total(r: Seq<PayloadAssignment>, ids: Seq<Seq<char>>, payloads: Seq<String>, b: nat, m: int)
    requires
        is_batched(r, ids, payloads, b),
        b > 0,
        0 <= m <= r.len(),
    ensures
        payload_total(views(r).take(m)) == (if m * b <= payloads.len() { m * b } else { payloads.len() as int }),
    decreases m,
{
    let n = payloads.len() as int;
    let v = views(r);
    if m == 0 {
        assert(v.take(0) =~= Seq::<AssignmentView>::empty());
        assert(m * b == 0) by (nonlinear_arith)
            requires
                m == 0,
        ;
    } else {
        let j = m - 1;
        assert(m * b == j * b + b) by (nonlinear_arith)
            requires
                j == m - 1,
        ;
        lemma_batch_prefix_total(r, ids, payloads, b, j);
        assert(v.take(m).drop_last() =~= v.take(j));
        assert(j * b <= (r.len() - 1) * b) by (nonlinear_arith)
            requires
                0 <= j <= r.len() - 1,
                b > 0,
        ;
        assert((j + 1) * b == j * b + b) by (nonlinear_arith);
        assert(j * b < n);
        let start = j * b;
        let end = if (j + 1) * b <= n { (j + 1) * b } else { n };
        assert(r[j].payloads@ == payloads.subrange(start, end));
        assert(v.take(m).last() == v[j]);
        assert(v[j].payloads.len() == end - start);
        assert(payload_total(v.take(m)) == v[j].payloads.len() + payload_total(v.take(j)));
    }
}

/// Batching hands out every payload once: the batches together hold exactly
/// as many payloads as were given.
pub proof fn law_batches_cover_payloads(r: Seq<PayloadAssignment>, ids: Seq<Seq<char>>, payloads: Seq<String>, b: nat)
    requires
        is_batched(r, ids, payloads, b),
        b > 0,
    ensures
        payload_total(views(r)) == payloads.len(),
{
    lemma_batch_prefix_total(r, ids, payloads, b, r.len() as int);
    assert(views(r).take(r.len() as int) =~= views(r));
}

proof fn lemma_rr_indices_contains(ids: Seq<Seq<char>>, n: nat, x: Seq<char>, i: int)
    requires
        ids.len() > 0,
    ensures
        rr_indices(ids, n, x).contains(i) <==> (0 <= i < n && agent_for(ids, i) == x),
    decreases n,
{
    if n > 0 {
        lemma_rr_indices_contains(ids, (n - 1) as nat, x, i);
        let s = rr_indices(ids, (n - 1) as nat, x);
        let t = rr_indices(ids, n, x);
        if agent_for(ids, n - 1) == x {
            assert(t == s.push(n - 1));
            if s.contains(i) {
                let j = choose|j: int| 0 <= j < s.len() && s[j] == i;
                assert(t[j] == i);
            }
            if t.contains(i) && i != n - 1 {
                let j = choose|j: int| 0 <= j < t.len() && t[j] == i;
                assert(j < s.len());
                assert(s[j] == i);
            }
            assert(t[s.len() as int] == n - 1);
        }
    }
}

/// Round-robin hands out every payload exactly once: each payload position
/// below the count belongs to the share of one assignment and no other.
pub proof fn law_round_robin_assigns_each_payload_once(
    r: Seq<PayloadAssignment>,
    ids: Seq<Seq<char>>,
    payloads: Seq<String>,
    n: nat,
    i: int,
)
    requires
        is_round_robin(r, ids, payloads, n),
        ids.len() > 0,
        0 <= i < n,
    ensures
        exists|k: int| 0 <= k < r.len() && #[trigger] rr_indices(ids, n, r[k].agent_id@).contains(i),
        forall|k1: int, k2: int|
            0 <= k1 < r.len() && 0 <= k2 < r.len() && #[trigger] rr_indices(ids, n, r[k1].agent_id@).contains(i)
                && #[trigger] rr_indices(ids, n, r[k2].agent_id@).contains(i) ==> k1 == k2,
{
    let k = choose|k: int| 0 <= k < r.len() && (#[trigger] r[k]).agent_id@ == agent_for(ids, i);
    lemma_rr_indices_contains(ids, n, r[k].agent_id@, i);
    assert forall|k1: int, k2: int|
        0 <= k1 < r.len() && 0 <= k2 < r.len() && #[trigger] rr_indices(ids, n, r[k1].agent_id@).contains(i)
            && #[trigger] rr_indices(ids, n, r[k2].agent_id@).contains(i) implies k1 == k2 by {
        lemma_rr_indices_contains(ids, n, r[k1].agent_id@, i);
        lemma_rr_indices_contains(ids, n, r[k2].agent_id@, i);
    }
}


/// Sum over the assignments of the sizes of their agents' round-robin shares
/// among the first `m` positions.
pub open spec fn share_sizes(r: Seq<PayloadAssignment>, ids: Seq<Seq<char>>, m: nat) -> nat
    decreases r.len(),
{
    if r.len() == 0 {
        0
    } else {
        share_sizes(r.drop_last(), ids, m) + rr_indices(ids, m, r.last().agent_id@).len()
    }
}

/// Number of assignments of agent `x`.
pub open spec fn id_count(r: Seq<PayloadAssignment>, x: Seq<char>) -> nat
    decreases r.len(),
{
    if r.len() == 0 {
        0
    } else {
        id_count(r.drop_last(), x) + if r.last().agent_id@ == x { 1nat } else { 0nat }
    }
}

proof fn lemma_share_sizes_zero(r: Seq<PayloadAssignment>, ids: Seq<Seq<char>>)
    ensures
        share_sizes(r, ids, 0) == 0,
    decreases r.len(),
{
    if r.len() > 0 {
        lemma_share_sizes_zero(r.drop_last(), ids);
    }
}

proof fn lemma_share_sizes_step(r: Seq<PayloadAssignment>, ids: Seq<Seq<char>>, m: nat)
    ensures
        share_sizes(r, ids, m + 1) == share_sizes(r, ids, m) + id_count(r, agent_for(ids, m as int)),
    decreases r.len(),
{
    if r.len() > 0 {
        lemma_share_sizes_step(r.drop_last(), ids, m);
    }
}

proof fn lemma_id_count_none(r: Seq<PayloadAssignment>, x: Seq<char>)
    requires
        forall|k: int| 0 <= k < r.len() ==> r[k].agent_id@ != x,
    ensures
        id_count(r, x) == 0,
    decreases r.len(),
{
    if r.len() > 0 {
        lemma_id_count_none(r.drop_last(), x);
    }
}

proof fn lemma_id_count_one(r: Seq<PayloadAssignment>, x: Seq<char>, k: int)
    requires
        0 <= k < r.len(),
        r[k].agent_id@ == x,
        forall|k1: int, k2: int|
            0 <= k1 < r.len() && 0 <= k2 < r.len() && k1 != k2 ==> (#[trigger] r[k1]).agent_id@ != (#[trigger] r[k2]).agent_id@,
    ensures
        id_count(r, x) == 1,
    decreases r.len(),
{
    let d = r.drop_last();
    if k == r.len() - 1 {
        assert forall|t: int| 0 <= t < d.len() implies d[t].agent_id@ != x by {
            assert(r[t].agent_id@ != r[k].agent_id@);
        }
        lemma_id_count_none(d, x);
    } else {
        assert(r.last().agent_id@ != x) by {
            assert(r[r.len() - 1].agent_id@ != r[k].agent_id@);
        }
        assert forall|k1: int, k2: int|
            0 <= k1 < d.len() && 0 <= k2 < d.len() && k1 != k2 implies (#[trigger] d[k1]).agent_id@ != (
            #[trigger] d[k2]).agent_id@ by {
            assert(r[k1].agent_id@ != r[k2].agent_id@);
        }
        lemma_id_count_one(d, x, k);
    }
}

proof fn lemma_rr_share_sizes(r: Seq<PayloadAssignment>, ids: Seq<Seq<char>>, payloads: Seq<String>, n: nat, m: nat)
    requires
        is_round_robin(r, ids, payloads, n),
        ids.len() > 0,
        m <= n,
    ensures
        share_sizes(r, ids, m) == m,
    decreases m,
{
    if m == 0 {
        lemma_share_sizes_zero(r, ids);
    } else {
        let j = (m - 1) as nat;
        lemma_rr_share_sizes(r, ids, payloads, n, j);
        lemma_share_sizes_step(r, ids, j);
        let x = agent_for(ids, j as int);
        let k = choose|k: int| 0 <= k < r.len() && (#[trigger] r[k]).agent_id@ == agent_for(ids, j as int);
        lemma_id_count_one(r, x, k);
    }
}

proof fn lemma_rr_total(r: Seq<PayloadAssignment>, ids: Seq<Seq<char>>, payloads: Seq<String>, n: nat)
    requires
        forall|k: int| 0 <= k < r.len() ==> rr_share(#[trigger] r[k], ids, payloads, n),
    ensures
        payload_total(views(r)) == share_sizes(r, ids, n),
    decreases r.len(),
{
    if r.len() > 0 {
        let d = r.drop_last();
        assert forall|k: int| 0 <= k < d.len() implies rr_share(#[trigger] d[k], ids, payloads, n) by {
            assert(d[k] == r[k]);
        }
        lemma_rr_total(d, ids, payloads, n);
        assert(views(r).drop_last() =~= views(d));
        assert(rr_share(r[r.len() - 1], ids, payloads, n));
    }
}

/// Round-robin hands out every payload: the assignments together hold exactly
/// as many payloads as were given.
pub proof fn law_round_robin_covers_payloads(r: Seq<PayloadAssignment>, ids: Seq<Seq<char>>, payloads: Seq<String>)
    requires
        is_round_robin(r, ids, payloads, payloads.len()),
        ids.len() > 0,
    ensures
        payload_total(views(r)) == payloads.len(),
{
    lemma_rr_total(r, ids, payloads, payloads.len());
    lemma_rr_share_sizes(r, ids, payloads, payloads.len(), payloads.len());
}


/// Every distribution that `distribute_payloads` makes hands out each payload:
/// round-robin and batches always, a load-balanced one whenever it hands out
/// any assignment.
pub proof fn law_distribution_covers_payloads(
    r: Seq<PayloadAssignment>,
    strategy: DistributionStrategy,
    payloads: Seq<String>,
    agents: Seq<AgentInfo>,
    shares: Seq<LoadShare>,
)
    requires
        is_distribution(r, strategy, payloads, agents, shares),
        distribution_allowed(payloads.len(), agents),
        strategy is LoadBalanced ==> r.len() > 0,
    ensures
        payload_total(views(r)) == payloads.len(),
{
    let ids = ids_of(online(agents));
    assert(ids.len() == online(agents).len());
    match strategy {
        DistributionStrategy::RoundRobin => {
            law_round_robin_covers_payloads(r, ids, payloads);
        },
        DistributionStrategy::Batch { batch_size } => {
            law_batches_cover_payloads(r, ids, payloads, effective_batch(batch_size));
        },
        DistributionStrategy::LoadBalanced => {
            law_share_distribution_covers_payloads(r, shares, payloads);
        },
    }
}

/// The online agents other than `failed`, in order.
pub open spec fn remaining_online(agents: Seq<AgentInfo>, failed: Seq<char>) -> Seq<AgentInfo> {
    agents.filter(|a: AgentInfo| a.status == AgentStatus::Online && a.id@ != failed)
}

/// Copies of the online agents other than `failed`.
pub fn remaining_agents(agents: &[AgentInfo], failed: &str) -> (r: Vec<AgentInfo>)
    ensures
        r@ == remaining_online(agents@, failed@),
{
    let ghost pred = |a: AgentInfo| a.status == AgentStatus::Online && a.id@ != failed@;
    let mut r: Vec<AgentInfo> = Vec::new();
    let mut i: usize = 0;
    while i < agents.len()
        invariant
            i <= agents@.len(),
            pred == (|a: AgentInfo| a.status == AgentStatus::Online && a.id@ != failed@),
            r@ == agents@.subrange(0, i as int).filter(pred),
        decreases agents.len() - i,
    {
        proof {
            assert(agents@.subrange(0, i + 1) =~= agents@.subrange(0, i as int).push(agents@[i as int]));
            agents@.subrange(0, i as int).lemma_filter_push(agents@[i as int], pred);
        }
        if agents[i].status == AgentStatus::Online && !str_eq(agents[i].id.as_str(), failed) {
            r.push(agents[i].duplicate());
        }
        i = i + 1;
    }
    proof {
        assert(agents@.subrange(0, agents@.len() as int) =~= agents@);
    }
    r
}

/// Copies of the assignments of agents other than `failed`, in order.
pub fn assignments_without(r: &Vec<PayloadAssignment>, failed: &str) -> (k: Vec<PayloadAssignment>)
    ensures
        views(k@) == views(r@).filter(|a: AssignmentView| a.agent_id != failed@),
{
    let ghost pred = |a: AssignmentView| a.agent_id != failed@;
    let mut k: Vec<PayloadAssignment> = Vec::new();
    let mut i: usize = 0;
    while i < r.len()
        invariant
            i <= r@.len(),
            pred == (|a: AssignmentView| a.agent_id != failed@),
            views(k@) == views(r@).subrange(0, i as int).filter(pred),
        decreases r.len() - i,
    {
        proof {
            assert(views(r@).subrange(0, i + 1) =~= views(r@).subrange(0, i as int).push(views(r@)[i as int]));
            views(r@).subrange(0, i as int).lemma_filter_push(views(r@)[i as int], pred);
        }
        if !str_eq(r[i].agent_id.as_str(), failed) {
            let ghost k0 = k@;
            k.push(r[i].duplicate());
            proof {
                assert(views(k@) =~= views(k0).push(r@[i as int]@));
            }
        }
        i = i + 1;
    }
    proof {
        assert(views(r@).subrange(0, r@.len() as int) =~= views(r@));
    }
    k
}

impl DistributionStats {
    /// A copy of these statistics.
    pub fn duplicate(&self) -> (r: DistributionStats)
        ensures
            r.total_payloads == self.total_payloads,
            r.total_agents == self.total_agents,
            views(r.assignments@) == views(self.assignments@),
    {
        let mut a: Vec<PayloadAssignment> = Vec::new();
        let mut i: usize = 0;
        while i < self.assignments.len()
            invariant
                i <= self.assignments@.len(),
                views(a@) == views(self.assignments@).subrange(0, i as int),
            decreases self.assignments.len() - i,
        {
            let ghost a0 = a@;
            a.push(self.assignments[i].duplicate());
            proof {
                assert(views(a@) =~= views(a0).push(self.assignments@[i as int]@));
                assert(views(self.assignments@).subrange(0, i + 1) =~= views(self.assignments@).subrange(0, i as int).push(
                    self.assignments@[i as int]@,
                ));
            }
            i = i + 1;
        }
        proof {
            assert(views(self.assignments@).subrange(0, self.assignments@.len() as int) =~= views(self.assignments@));
        }
        DistributionStats { total_payloads: self.total_payloads, total_agents: self.total_agents, assignments: a }
    }
}

/// Moving the failed agent's payloads cannot run past the largest index: each
/// assignment's start plus its payload count plus twice the failed agent's
/// payload count stays within `usize`.
pub open spec fn redistribution_fits(orig: Seq<AssignmentView>, failed: Seq<char>) -> bool {
    let f = first_view_of(orig, failed);
    f >= 0 ==> forall|i: int|
        0 <= i < orig.len() ==> (#[trigger] orig[i]).start_index + orig[i].payloads.len() + 2 * orig[f].payloads.len()
            <= usize::MAX
}

/// Moves the payloads of a failed agent to the remaining online agents (along the
/// load-balanced shares computed for them) and merges them into the assignments
/// of the other agents. With no assignment for the failed agent the distribution
/// is returned unchanged; with no remaining online agent the move is refused.
pub fn redistribute_on_failure(
    failed_agent_id: &str,
    original: &DistributionStats,
    agents: &[AgentInfo],
    shares: &[LoadShare],
) -> (r: Result<DistributionStats, AttackError>)
    requires
        redistribution_fits(views(original.assignments@), failed_agent_id@),
    ensures
        ({
            let orig = views(original.assignments@);
            let f = first_view_of(orig, failed_agent_id@);
            let rest = remaining_online(agents@, failed_agent_id@);
            &&& f < 0 ==> (r matches Ok(st) && st.total_payloads == original.total_payloads
                && st.total_agents == original.total_agents && views(st.assignments@) == orig)
            &&& f >= 0 && rest.len() == 0 ==> (r matches Err(AttackError::AgentUnavailable { agent_id })
                && agent_id@ == "No remaining agents available for redistribution"@)
            &&& f >= 0 && rest.len() > 0 ==> (r matches Ok(st) && st.total_payloads == original.total_payloads
                && st.total_agents == rest.len() && exists|extra: Seq<PayloadAssignment>|
                is_share_distribution(extra, shares@, orig[f].payloads) && views(st.assignments@) == merge_upto(
                orig.filter(|a: AssignmentView| a.agent_id != failed_agent_id@),
                views(extra),
                extra.len(),
            ))
        }),
{
    let ghost orig = views(original.assignments@);
    proof {
        lemma_first_view_of(orig, failed_agent_id@);
    }
    let f = match find_agent_assignment(&original.assignments, failed_agent_id) {
        Some(f) => f,
        None => return Ok(original.duplicate()),
    };
    let failed_payloads = original.assignments[f].payloads.clone();
    proof {
        assert(failed_payloads@ =~= orig[f as int].payloads);
    }
    let rest = remaining_agents(agents, failed_agent_id);
    if rest.len() == 0 {
        return Err(AttackError::AgentUnavailable { agent_id: owned("No remaining agents available for redistribution") });
    }
    let extra = distribute_by_shares(&failed_payloads, shares);
    let kept = assignments_without(&original.assignments, failed_agent_id);
    proof {
        lemma_share_distribution_sizes(extra@, shares@, failed_payloads@);
        let kv = views(kept@);
        let ev = views(extra@);
        let pred = |a: AssignmentView| a.agent_id != failed_agent_id@;
        let nf = orig[f as int].payloads.len();
        assert forall|i: int| 0 <= i < kv.len() implies (#[trigger] kv[i]).start_index + kv[i].payloads.len() + payload_total(ev)
            <= usize::MAX by {
            assert(kv == orig.filter(pred));
            assert(kv.contains(kv[i]));
            orig.lemma_filter_contains_rev(pred, kv[i]);
            let t = choose|t: int| 0 <= t < orig.len() && orig[t] == kv[i];
            assert(orig[t].start_index + orig[t].payloads.len() + 2 * nf <= usize::MAX);
        }
        assert forall|j: int| 0 <= j < ev.len() implies (#[trigger] ev[j]).start_index + payload_total(ev) <= usize::MAX by {
            assert(extra@[j].start_index <= nf);
            assert(orig[f as int].start_index + orig[f as int].payloads.len() + 2 * nf <= usize::MAX);
        }
        assert forall|j: int| 0 <= j < ev.len() implies (#[trigger] ev[j]).payloads.len() > 0 by {
            assert(extra@[j].payloads@.len() > 0);
        }
    }
    let ghost extra_seq = extra@;
    let assignments = merge_assignments(kept, extra);
    Ok(DistributionStats { total_payloads: original.total_payloads, total_agents: rest.len(), assignments })
}

/// Timing figures of an agent used to estimate how long its payloads take.
#[derive(Debug)]
pub struct AgentTiming {
    pub agent_id: String,
    pub response_time_ms: u64,
    pub max_concurrent: u32,
}

/// Position of the first agent with the given id, or -1.
pub open spec fn agent_index(agents: Seq<AgentInfo>, id: Seq<char>) -> int
    decreases agents.len(),
{
    if agents.len() == 0 {
        -1
    } else if agents[0].id@ == id {
        0
    } else {
        let k = agent_index(agents.drop_first(), id);
        if k < 0 { -1 } else { k + 1 }
    }
}

/// Position of the first timing record of the given agent, or -1.
pub open spec fn timing_index(t: Seq<AgentTiming>, id: Seq<char>) -> int
    decreases t.len(),
{
    if t.len() == 0 {
        -1
    } else if t[0].agent_id@ == id {
        0
    } else {
        let k = timing_index(t.drop_first(), id);
        if k < 0 { -1 } else { k + 1 }
    }
}

proof fn lemma_agent_index(agents: Seq<AgentInfo>, id: Seq<char>)
    ensures
        -1 <= agent_index(agents, id) < agents.len(),
        agent_index(agents, id) >= 0 ==> agents[agent_index(agents, id)].id@ == id,
        agent_index(agents, id) >= 0 ==> forall|t: int| 0 <= t < agent_index(agents, id) ==> agents[t].id@ != id,
        agent_index(agents, id) < 0 ==> forall|t: int| 0 <= t < agents.len() ==> agents[t].id@ != id,
    decreases agents.len(),
{
    if agents.len() > 0 {
        lemma_agent_index(agents.drop_first(), id);
        assert forall|t: int| 0 < t < agents.len() implies agents[t] == agents.drop_first()[t - 1] by {}
    }
}

proof fn lemma_timing_index(t: Seq<AgentTiming>, id: Seq<char>)
    ensures
        -1 <= timing_index(t, id) < t.len(),
        timing_index(t, id) >= 0 ==> t[timing_index(t, id)].agent_id@ == id,
        timing_index(t, id) >= 0 ==> forall|u: int| 0 <= u < timing_index(t, id) ==> t[u].agent_id@ != id,
        timing_index(t, id) < 0 ==> forall|u: int| 0 <= u < t.len() ==> t[u].agent_id@ != id,
    decreases t.len(),
{
    if t.len() > 0 {
        lemma_timing_index(t.drop_first(), id);
        assert forall|u: int| 0 < u < t.len() implies t[u] == t.drop_first()[u - 1] by {}
    }
}

/// Response time and concurrency used for an agent: its timing record if it has
/// one, else its own response time (1000 ms if unknown) and a concurrency of 10.
pub open spec fn timing_params(agent: AgentInfo, timings: Seq<AgentTiming>) -> (nat, nat) {
    let k = timing_index(timings, agent.id@);
    if k >= 0 {
        (timings[k].response_time_ms as nat, timings[k].max_concurrent as nat)
    } else {
        (
            match agent.response_time_ms {
                Some(t) => t as nat,
                None => 1000,
            },
            10,
        )
    }
}

/// Time for `len` payloads sent `c` at a time, each round taking `rt` ms.
pub open spec fn rounds_time(len: nat, rt: nat, c: nat) -> nat {
    (((len + c - 1) / c as int) * rt) as nat
}

/// The slowest agent's time over the first `k` assignments, or `None` if one of
/// them names an agent that is not in the list.
pub open spec fn slowest_upto(
    r: Seq<PayloadAssignment>,
    agents: Seq<AgentInfo>,
    timings: Seq<AgentTiming>,
    k: nat,
) -> Option<nat>
    decreases k,
{
    if k == 0 {
        Some(0)
    } else {
        match slowest_upto(r, agents, timings, (k - 1) as nat) {
            None => None,
            Some(m) => {
                let ai = agent_index(agents, r[k - 1].agent_id@);
                if ai < 0 {
                    None
                } else {
                    let (rt, c) = timing_params(agents[ai], timings);
                    let t = rounds_time(r[k - 1].payloads@.len(), rt, c);
                    Some(if t > m { t } else { m })
                }
            }
        }
    }
}

proof fn lemma_slowest_stays_none(
    r: Seq<PayloadAssignment>,
    agents: Seq<AgentInfo>,
    timings: Seq<AgentTiming>,
    k: nat,
    j: nat,
)
    requires
        k <= j,
        slowest_upto(r, agents, timings, k) is None,
    ensures
        slowest_upto(r, agents, timings, j) is None,
    decreases j,
{
    if j > k {
        lemma_slowest_stays_none(r, agents, timings, k, (j - 1) as nat);
    }
}

/// Every assignment whose agent is known has a positive concurrency and an
/// estimate that fits in `u64` (and its count plus the concurrency fits in `usize`).
pub open spec fn estimate_fits(r: Seq<PayloadAssignment>, agents: Seq<AgentInfo>, timings: Seq<AgentTiming>) -> bool {
    forall|k: int|
        0 <= k < r.len() && agent_index(agents, (#[trigger] r[k]).agent_id@) >= 0 ==> {
            let (rt, c) = timing_params(agents[agent_index(agents, r[k].agent_id@)], timings);
            &&& c > 0
            &&& r[k].payloads@.len() + c <= usize::MAX
            &&& (r[k].payloads@.len() + c - 1) / c as int <= u64::MAX
            &&& rounds_time(r[k].payloads@.len(), rt, c) <= u64::MAX
        }
}

/// Finds the first agent with the given id.
fn find_agent(agents: &[AgentInfo], id: &str) -> (k: Option<usize>)
    ensures
        match k {
            Some(i) => i == agent_index(agents@, id@) && i < agents@.len(),
            None => agent_index(agents@, id@) < 0,
        },
{
    proof {
        lemma_agent_index(agents@, id@);
    }
    let mut i: usize = 0;
    while i < agents.len()
        invariant
            i <= agents@.len(),
            forall|t: int| 0 <= t < i ==> agents@[t].id@ != id@,
            -1 <= agent_index(agents@, id@) < agents@.len(),
            agent_index(agents@, id@) >= 0 ==> agents@[agent_index(agents@, id@)].id@ == id@,
            agent_index(agents@, id@) >= 0 ==> forall|t: int| 0 <= t < agent_index(agents@, id@) ==> agents@[t].id@ != id@,
            agent_index(agents@, id@) < 0 ==> forall|t: int| 0 <= t < agents@.len() ==> agents@[t].id@ != id@,
        decreases agents.len() - i,
    {
        if str_eq(agents[i].id.as_str(), id) {
            proof {
                let f = agent_index(agents@, id@);
                assert(f >= 0);
                if f < i {
                    assert(agents@[f].id@ == id@);
                }
            }
            return Some(i);
        }
        i = i + 1;
    }
    None
}

/// Finds the first timing record of the given agent.
fn find_timing(timings: &[AgentTiming], id: &str) -> (k: Option<usize>)
    ensures
        match k {
            Some(i) => i == timing_index(timings@, id@) && i < timings@.len(),
            None => timing_index(timings@, id@) < 0,
        },
{
    proof {
        lemma_timing_index(timings@, id@);
    }
    let mut i: usize = 0;
    while i < timings.len()
        invariant
            i <= timings@.len(),
            forall|t: int| 0 <= t < i ==> timings@[t].agent_id@ != id@,
            -1 <= timing_index(timings@, id@) < timings@.len(),
            timing_index(timings@, id@) >= 0 ==> timings@[timing_index(timings@, id@)].agent_id@ == id@,
            timing_index(timings@, id@) >= 0 ==> forall|t: int| 0 <= t < timing_index(timings@, id@) ==> timings@[t].agent_id@ != id@,
            timing_index(timings@, id@) < 0 ==> forall|t: int| 0 <= t < timings@.len() ==> timings@[t].agent_id@ != id@,
        decreases timings.len() - i,
    {
        if str_eq(timings[i].agent_id.as_str(), id) {
            proof {
                let f = timing_index(timings@, id@);
                assert(f >= 0);
                if f < i {
                    assert(timings@[f].agent_id@ == id@);
                }
            }
            return Some(i);
        }
        i = i + 1;
    }
    None
}

/// Estimated completion time in milliseconds: the slowest agent's number of
/// rounds times its response time. `None` when an assignment names an unknown
/// agent or the estimate is zero.
pub fn estimate_completion_ms(
    assignments: &Vec<PayloadAssignment>,
    agents: &[AgentInfo],
    timings: &[AgentTiming],
) -> (r: Option<u64>)
    requires
        estimate_fits(assignments@, agents@, timings@),
    ensures
        r == (match slowest_upto(assignments@, agents@, timings@, assignments@.len()) {
            Some(m) => if m > 0 { Some(m as u64) } else { None },
            None => None,
        }),
{
    let mut max_time: u64 = 0;
    let mut k: usize = 0;
    while k < assignments.len()
        invariant
            k <= assignments@.len(),
            estimate_fits(assignments@, agents@, timings@),
            slowest_upto(assignments@, agents@, timings@, k as nat) == Some(max_time as nat),
        decreases assignments.len() - k,
    {
        let a = &assignments[k];
        let ai = match find_agent(agents, a.agent_id.as_str()) {
            Some(i) => i,
            None => {
                proof {
                    lemma_slowest_stays_none(assignments@, agents@, timings@, (k + 1) as nat, assignments@.len());
                }
                return None;
            },
        };
        let (rt, c): (u64, u32) = match find_timing(timings, a.agent_id.as_str()) {
            Some(t) => (timings[t].response_time_ms, timings[t].max_concurrent),
            None => (
                match agents[ai].response_time_ms {
                    Some(t) => t,
                    None => 1000,
                },
                10,
            ),
        };
        proof {
            lemma_agent_index(agents@, a.agent_id@);
            lemma_timing_index(timings@, a.agent_id@);
            assert(agents@[ai as int].id@ == a.agent_id@);
            assert((rt as nat, c as nat) == timing_params(agents@[ai as int], timings@));
            assert(agent_index(agents@, assignments@[k as int].agent_id@) >= 0);
            let kk = k as int;
            assert(0 <= kk < assignments@.len() && agent_index(agents@, assignments@[kk].agent_id@) >= 0);
            let pr = timing_params(agents@[agent_index(agents@, assignments@[kk].agent_id@)], timings@);
            assert(pr.1 > 0 && assignments@[kk].payloads@.len() + pr.1 <= usize::MAX);
            assert(a.payloads@.len() + c <= usize::MAX);
        }
        let per = c as usize;
        let batches = (a.payloads.len() + per - 1) / per;
        let t = batches as u64 * rt;
        if t > max_time {
            max_time = t;
        }
        k = k + 1;
    }
    if max_time > 0 {
        Some(max_time)
    } else {
        None
    }
}


/// The failure times of one agent, in milliseconds since the epoch, oldest first.
#[derive(Debug)]
pub struct AgentFailureTimes {
    pub agent_id: String,
    pub times: Vec<i64>,
}

/// The failures of each agent within the last hour, which the reliability of an
/// agent is judged by; one entry per agent.
#[derive(Debug)]
pub struct FailureHistory {
    pub agents: Vec<AgentFailureTimes>,
}

/// How long a failure counts against an agent: one hour, in milliseconds.
pub const FAILURE_WINDOW_MS: i64 = 3_600_000;

/// Position of the entry of agent `id`, or -1.
pub open spec fn failure_index(a: Seq<AgentFailureTimes>, id: Seq<char>) -> int
    decreases a.len(),
{
    if a.len() == 0 {
        -1
    } else if a[0].agent_id@ == id {
        0
    } else {
        let k = failure_index(a.drop_first(), id);
        if k < 0 { -1 } else { k + 1 }
    }
}

proof fn lemma_failure_index(a: Seq<AgentFailureTimes>, id: Seq<char>)
    ensures
        -1 <= failure_index(a, id) < a.len(),
        failure_index(a, id) >= 0 ==> a[failure_index(a, id)].agent_id@ == id,
        failure_index(a, id) >= 0 ==> forall|t: int| 0 <= t < failure_index(a, id) ==> a[t].agent_id@ != id,
        failure_index(a, id) < 0 ==> forall|t: int| 0 <= t < a.len() ==> a[t].agent_id@ != id,
    decreases a.len(),
{
    if a.len() > 0 {
        lemma_failure_index(a.drop_first(), id);
        assert forall|t: int| 0 < t < a.len() implies a[t] == a.drop_first()[t - 1] by {}
    }
}

/// The recorded failure times of agent `id` (none without an entry).
pub open spec fn failure_times(a: Seq<AgentFailureTimes>, id: Seq<char>) -> Seq<i64> {
    let k = failure_index(a, id);
    if k >= 0 { a[k].times@ } else { Seq::empty() }
}

/// A failure at time `t` still counts at `now`: it is less than an hour old.
pub open spec fn still_counts(now: i64) -> spec_fn(i64) -> bool {
    |t: i64| t > now - FAILURE_WINDOW_MS
}

/// The failure times that still count at `now`.
pub open spec fn within_window(times: Seq<i64>, now: i64) -> Seq<i64> {
    times.filter(still_counts(now))
}

impl FailureHistory {
    /// No failures recorded.
    pub fn new() -> (r: FailureHistory)
        ensures
            r.agents@.len() == 0,
    {
        FailureHistory { agents: Vec::new() }
    }

    fn find(&self, id: &str) -> (k: Option<usize>)
        ensures
            match k {
                Some(i) => i == failure_index(self.agents@, id@) && i < self.agents@.len(),
                None => failure_index(self.agents@, id@) < 0,
            },
    {
        proof {
            lemma_failure_index(self.agents@, id@);
        }
        let mut i: usize = 0;
        while i < self.agents.len()
            invariant
                i <= self.agents@.len(),
                forall|t: int| 0 <= t < i ==> self.agents@[t].agent_id@ != id@,
                -1 <= failure_index(self.agents@, id@) < self.agents@.len(),
                failure_index(self.agents@, id@) >= 0 ==> self.agents@[failure_index(self.agents@, id@)].agent_id@ == id@,
                failure_index(self.agents@, id@) >= 0 ==> forall|t: int|
                    0 <= t < failure_index(self.agents@, id@) ==> self.agents@[t].agent_id@ != id@,
                failure_index(self.agents@, id@) < 0 ==> forall|t: int| 0 <= t < self.agents@.len() ==> self.agents@[t].agent_id@ != id@,
            decreases self.agents.len() - i,
        {
            if str_eq(self.agents[i].agent_id.as_str(), id) {
                proof {
                    let f = failure_index(self.agents@, id@);
                    if f < 0 {
                        assert(self.agents@[i as int].agent_id@ != id@);
                    }
                    if f >= 0 && f < i {
                        assert(self.agents@[f].agent_id@ == id@);
                    }
                }
                return Some(i);
            }
            i = i + 1;
        }
        proof {
            let f = failure_index(self.agents@, id@);
            if f >= 0 {
                assert(self.agents@[f].agent_id@ == id@);
            }
        }
        None
    }

    /// Records a failure of agent `agent_id` at `now`; failures an hour old or
    /// older are forgotten. Other agents' failures are unchanged.
    pub fn record_agent_failure(&mut self, agent_id: &str, now: i64)
        ensures
            failure_times(final(self).agents@, agent_id@) == within_window(
                failure_times(old(self).agents@, agent_id@).push(now),
                now,
            ),
            forall|id: Seq<char>| id != agent_id@ ==> #[trigger] failure_times(final(self).agents@, id) == failure_times(
                old(self).agents@,
                id,
            ),
    {
        let ghost a0 = self.agents@;
        let i = match self.find(agent_id) {
            Some(i) => i,
            None => {
                self.agents.push(AgentFailureTimes { agent_id: owned(agent_id), times: Vec::new() });
                proof {
                    let a1 = self.agents@;
                    lemma_failure_index(a0, agent_id@);
                    lemma_failure_index(a1, agent_id@);
                    let f = failure_index(a1, agent_id@);
                    if f >= 0 && f < a0.len() {
                        assert(a1[f] == a0[f]);
                    }
                    assert(a1[a0.len() as int].agent_id@ == agent_id@);
                    assert forall|id: Seq<char>| id != agent_id@ implies #[trigger] failure_times(a1, id) == failure_times(a0, id) by {
                        lemma_failure_index(a1, id);
                        lemma_failure_index(a0, id);
                        let u = failure_index(a0, id);
                        let v = failure_index(a1, id);
                        if u >= 0 {
                            assert(a1[u] == a0[u]);
                        }
                        if v >= 0 && v < a0.len() {
                            assert(a0[v] == a1[v]);
                        }
                    }
                }
                self.agents.len() - 1
            },
        };
        let ghost a1 = self.agents@;
        proof {
            lemma_failure_index(a1, agent_id@);
        }
        let mut entry = self.agents.remove(i);
        let ghost old_times = entry.times@;
        entry.times.push(now);
        let ghost pushed = entry.times@;
        let cutoff: i128 = now as i128 - FAILURE_WINDOW_MS as i128;
        let mut kept: Vec<i64> = Vec::new();
        let mut k: usize = 0;
        while k < entry.times.len()
            invariant
                k <= entry.times@.len(),
                entry.times@ == pushed,
                cutoff == now - FAILURE_WINDOW_MS,
                kept@ == pushed.take(k as int).filter(still_counts(now)),
            decreases entry.times.len() - k,
        {
            proof {
                assert(pushed.take(k + 1) =~= pushed.take(k as int).push(pushed[k as int]));
                pushed.take(k as int).lemma_filter_push(pushed[k as int], still_counts(now));
            }
            let t = entry.times[k];
            if t as i128 > cutoff {
                kept.push(t);
            }
            k = k + 1;
        }
        proof {
            assert(pushed.take(pushed.len() as int) =~= pushed);
        }
        entry.times = kept;
        let ghost ne = entry;
        self.agents.insert(i, entry);
        proof {
            let a2 = self.agents@;
            assert(a2 =~= a1.update(i as int, ne));
            lemma_failure_index(a2, agent_id@);
            let f = failure_index(a2, agent_id@);
            assert(a2[i as int].agent_id@ == agent_id@);
            if f >= 0 && f < i {
                assert(a2[f] == a1[f]);
            }
            assert(f == i);
            assert(failure_times(a1, agent_id@) == old_times);
            assert forall|id: Seq<char>| id != agent_id@ implies #[trigger] failure_times(a2, id) == failure_times(a1, id) by {
                lemma_failure_index(a2, id);
                lemma_failure_index(a1, id);
                let u = failure_index(a1, id);
                let v = failure_index(a2, id);
                if u >= 0 && u != i {
                    assert(a2[u] == a1[u]);
                }
                if v >= 0 && v != i {
                    assert(a1[v] == a2[v]);
                }
            }
        }
    }

    /// How many failures of agent `agent_id` are on record.
    pub fn recent_failures(&self, agent_id: &str) -> (r: usize)
        ensures
            r == failure_times(self.agents@, agent_id@).len(),
    {
        match self.find(agent_id) {
            Some(i) => self.agents[i].times.len(),
            None => 0,
        }
    }
}

} // verus!
