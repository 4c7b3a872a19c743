//! Global resource manager: coordinates allocation of browsers, recording
//! sessions, nuclei scans and intruder attacks across modules, with
//! counting semaphores holding the free permits of each pool.

use vstd::prelude::*;
use tokio::sync::Semaphore;
use crate::text::{append_str, owned};

verus! {

#[verifier::external_type_specification]
#[verifier::external_body]
pub struct ExSemaphore(tokio::sync::Semaphore);

/// The number of permits a semaphore has free.
pub uninterp spec fn free_permits(s: Semaphore) -> nat;

/// Whether a semaphore has been closed.
pub uninterp spec fn semaphore_closed(s: Semaphore) -> bool;

/// The largest number of permits a semaphore may hold (`usize::MAX >> 3`).
pub open spec fn max_permits() -> nat {
    (usize::MAX as nat) / 8
}

/// `Semaphore::new(permits)`: a fresh, open semaphore with `permits` free
/// permits; it panics above `Semaphore::MAX_PERMITS`, which `requires` excludes.
#[verifier::external_body]
pub(crate) fn new_semaphore(permits: usize) -> (s: Semaphore)
    requires
        permits <= max_permits(),
    ensures
        free_permits(s) == permits,
        !semaphore_closed(s),
{
    Semaphore::new(permits)
}

/// `Semaphore::try_acquire_many(n)` with the permit then forgotten (kept taken
/// until handed back with `add_permits`): it succeeds exactly when the semaphore
/// is open and has at least `n` free permits, and then takes them; otherwise
/// nothing changes. With `&mut` access no waiting `acquire` can exist.
#[verifier::external_body]
pub(crate) fn take_permits(s: &mut Semaphore, n: u32) -> (ok: bool)
    requires
        n <= max_permits(),
    ensures
        ok == (!semaphore_closed(*old(s)) && n <= free_permits(*old(s))),
        ok ==> free_permits(*final(s)) == free_permits(*old(s)) - n,
        !ok ==> free_permits(*final(s)) == free_permits(*old(s)),
        semaphore_closed(*final(s)) == semaphore_closed(*old(s)),
{
    match s.try_acquire_many(n) {
        Ok(permit) => {
            std::mem::forget(permit);
            true
        },
        Err(_) => false,
    }
}

/// `Semaphore::add_permits(n)`: with `&mut` access no task waits on the
/// semaphore, so all `n` permits become free; it panics when the total would
/// pass `Semaphore::MAX_PERMITS`, which `requires` excludes.
#[verifier::external_body]
pub(crate) fn give_permits(s: &mut Semaphore, n: usize)
    requires
        free_permits(*old(s)) + n <= max_permits(),
    ensures
        free_permits(*final(s)) == free_permits(*old(s)) + n,
        semaphore_closed(*final(s)) == semaphore_closed(*old(s)),
{
    s.add_permits(n)
}

/// The lowercase hexadecimal digit of a value below 16.
pub open spec fn hex_digit(d: u128) -> char {
    if d < 10 {
        (('0' as u32) + d) as char
    } else {
        (('a' as u32) + d - 10) as char
    }
}

/// Which of the 32 hexadecimal digits character `i` of the hyphenated form shows.
pub open spec fn uuid_digit_index(i: int) -> int {
    if i < 8 {
        i
    } else if i < 13 {
        i - 1
    } else if i < 18 {
        i - 2
    } else if i < 23 {
        i - 3
    } else {
        i - 4
    }
}

/// The hyphenated lowercase form of a 128-bit id: its 32 hexadecimal digits,
/// most significant first, in groups of 8, 4, 4, 4 and 12 joined by '-'.
pub open spec fn uuid_text(id: u128) -> Seq<char> {
    Seq::new(
        36,
        |i: int|
            if i == 8 || i == 13 || i == 18 || i == 23 {
                '-'
            } else {
                hex_digit((id >> ((124 - 4 * uuid_digit_index(i)) as u128)) & 15u128)
            },
    )
}

/// `uuid::Uuid::from_u128(id)` displayed with `to_string`: its hyphenated
/// lowercase form (see `uuid_text`).
#[verifier::external_body]
pub(crate) fn uuid_string(id: u128) -> (r: String)
    ensures
        r@ == uuid_text(id),
{
    uuid::Uuid::from_u128(id).to_string()
}

/// Global resource limits for the whole system.
#[derive(Clone, Copy, Debug)]
pub struct ResourceLimits {
    /// Maximum number of concurrent browser instances.
    pub max_browsers: usize,
    /// Maximum number of concurrent HTTP requests per agent.
    pub max_requests_per_agent: usize,
    /// Maximum number of concurrent recording sessions.
    pub max_recording_sessions: usize,
    /// Maximum number of concurrent nuclei scans.
    pub max_nuclei_scans: usize,
    /// Maximum number of concurrent intruder attacks.
    pub max_intruder_attacks: usize,
    /// Maximum total memory usage (MB).
    pub max_memory_mb: usize,
}

impl ResourceLimits {
    /// The default limits: 10 browsers, 50 requests per agent, 3 recording sessions,
    /// 5 nuclei scans, 10 intruder attacks and 4096 MB of memory.
    pub fn default_limits() -> (r: ResourceLimits)
        ensures
            r.max_browsers == 10,
            r.max_requests_per_agent == 50,
            r.max_recording_sessions == 3,
            r.max_nuclei_scans == 5,
            r.max_intruder_attacks == 10,
            r.max_memory_mb == 4096,
    {
        ResourceLimits {
            max_browsers: 10,
            max_requests_per_agent: 50,
            max_recording_sessions: 3,
            max_nuclei_scans: 5,
            max_intruder_attacks: 10,
            max_memory_mb: 4096,
        }
    }

    /// The limit of the pool with the given number (browsers, recording sessions,
    /// nuclei scans, intruder attacks).
    pub open spec fn pool_limit(self, pool: int) -> nat {
        if pool == 0 {
            self.max_browsers as nat
        } else if pool == 1 {
            self.max_recording_sessions as nat
        } else if pool == 2 {
            self.max_nuclei_scans as nat
        } else {
            self.max_intruder_attacks as nat
        }
    }
}

impl Default for ResourceLimits {
    fn default() -> (r: Self)
        ensures
            r.max_browsers == 10,
            r.max_requests_per_agent == 50,
            r.max_recording_sessions == 3,
            r.max_nuclei_scans == 5,
            r.max_intruder_attacks == 10,
            r.max_memory_mb == 4096,
    {
        ResourceLimits::default_limits()
    }
}

/// Module types that can request resources.
#[derive(Clone, Copy, Debug, PartialEq, Eq, Hash, Structural)]
pub enum ModuleType {
    LSR,
    Repeater,
    Intruder,
    Nuclei,
    Agent,
}

/// Types of resources that can be allocated.
#[derive(Clone, Copy, Debug, PartialEq, Eq, Structural)]
pub enum ResourceType {
    Browser,
    HttpRequest,
    RecordingSession,
    NucleiScan,
    IntruderAttack,
    /// Megabytes of memory.
    Memory(usize),
}

/// Request priority levels, from lowest to highest.
#[derive(Clone, Copy, Debug, PartialEq, Eq, PartialOrd, Ord, Structural)]
pub enum Priority {
    Low,
    Normal,
    High,
    Critical,
}

/// The numeric level of a priority (Low 1, Normal 2, High 3, Critical 4).
pub open spec fn priority_level(p: Priority) -> u8 {
    match p {
        Priority::Low => 1,
        Priority::Normal => 2,
        Priority::High => 3,
        Priority::Critical => 4,
    }
}

/// The numeric level of a priority (Low 1, Normal 2, High 3, Critical 4).
pub fn priority_value(p: Priority) -> (r: u8)
    ensures
        r == priority_level(p),
{
    match p {
        Priority::Low => 1,
        Priority::Normal => 2,
        Priority::High => 3,
        Priority::Critical => 4,
    }
}

/// A resource allocation request; the id is the request's UUID as a 128-bit number.
#[derive(Clone, Copy, Debug)]
pub struct ResourceRequest {
    pub id: u128,
    pub module: ModuleType,
    pub resource_type: ResourceType,
    pub quantity: usize,
    pub priority: Priority,
}

/// An active resource allocation; `allocated_at` is a Unix timestamp in seconds.
#[derive(Clone, Copy, Debug)]
pub struct ResourceAllocation {
    pub id: u128,
    pub module: ModuleType,
    pub resource_type: ResourceType,
    pub quantity: usize,
    pub allocated_at: i64,
}

/// What came of a resource request.
#[derive(Debug)]
pub enum AllocationResult {
    Granted(ResourceAllocation),
    Denied(String),
    /// The request was queued; carries the request id.
    Queued(u128),
}

/// The semaphore pool a resource type draws from: 0 browsers, 1 recording
/// sessions, 2 nuclei scans, 3 intruder attacks; HTTP requests and memory have none.
pub open spec fn pool_of(rt: ResourceType) -> Option<int> {
    match rt {
        ResourceType::Browser => Some(0),
        ResourceType::RecordingSession => Some(1),
        ResourceType::NucleiScan => Some(2),
        ResourceType::IntruderAttack => Some(3),
        _ => None,
    }
}

/// The word used for a resource type in denial messages.
pub open spec fn resource_word(rt: ResourceType) -> Seq<char> {
    match rt {
        ResourceType::Browser => "browser"@,
        ResourceType::RecordingSession => "recording session"@,
        ResourceType::NucleiScan => "nuclei scan"@,
        ResourceType::IntruderAttack => "intruder attack"@,
        ResourceType::HttpRequest => "HTTP request"@,
        ResourceType::Memory(_) => "memory"@,
    }
}

/// Why an immediate allocation of `rt` was refused when its pool lacked permits,
/// or when the type has no pool.
pub open spec fn denial_text(rt: ResourceType) -> Seq<char> {
    match rt {
        ResourceType::HttpRequest => "Per-agent HTTP request limits not implemented"@,
        ResourceType::Memory(_) => "Memory limits not implemented"@,
        _ => "Insufficient "@ + resource_word(rt) + " resources available"@,
    }
}

/// The message for a release of an unknown allocation.
pub open spec fn not_found_text(id: u128) -> Seq<char> {
    "Allocation "@ + uuid_text(id) + " not found"@
}

/// The allocation made for a request at time `now`.
pub open spec fn allocation_for(r: ResourceRequest, now: i64) -> ResourceAllocation {
    ResourceAllocation {
        id: r.id,
        module: r.module,
        resource_type: r.resource_type,
        quantity: r.quantity,
        allocated_at: now,
    }
}

/// The position of the first allocation with the given id, or -1.
pub open spec fn find_allocation(allocs: Seq<ResourceAllocation>, id: u128) -> int
    decreases allocs.len(),
{
    if allocs.len() == 0 {
        -1
    } else if allocs[0].id == id {
        0
    } else {
        let r = find_allocation(allocs.subrange(1, allocs.len() as int), id);
        if r < 0 {
            -1
        } else {
            r + 1
        }
    }
}

/// The allocation list after recording `a`: it replaces the allocation with the
/// same id, or is added at the end (a map from id to allocation).
pub open spec fn put_allocation(
    allocs: Seq<ResourceAllocation>,
    a: ResourceAllocation,
) -> Seq<ResourceAllocation> {
    let i = find_allocation(allocs, a.id);
    if i < 0 {
        allocs.push(a)
    } else {
        allocs.update(i, a)
    }
}

/// The queue after a request is queued: it goes after every request of the same
/// or higher priority and before every request of lower priority (what a push
/// followed by a stable sort by descending priority gives on a sorted queue).
pub open spec fn queue_position(q: Seq<ResourceRequest>, r: ResourceRequest) -> int
    decreases q.len(),
{
    if q.len() == 0 {
        0
    } else if priority_level(q[0].priority) < priority_level(r.priority) {
        0
    } else {
        1 + queue_position(q.subrange(1, q.len() as int), r)
    }
}

/// Requests are ordered by non-increasing priority.
pub open spec fn queue_sorted(q: Seq<ResourceRequest>) -> bool {
    forall|i: int, j: int|
        0 <= i < j < q.len() ==> priority_level(#[trigger] q[i].priority) >= priority_level(
            #[trigger] q[j].priority,
        )
}

/// The number of permits a request asks of its pool (`quantity as u32`) is one a
/// semaphore can be asked for (always so where `usize` has 64 bits).
pub open spec fn takeable(r: ResourceRequest) -> bool {
    ((r.quantity as u32) as nat) <= max_permits()
}

/// Abstract state of the manager: free permits per pool, allocations, pending queue.
pub struct ManagerView {
    pub free: Seq<nat>,
    pub allocations: Seq<ResourceAllocation>,
    pub pending: Seq<ResourceRequest>,
}

/// The free permits after trying to take a request's permits immediately, or
/// `None` when the request cannot be granted now.
pub open spec fn try_take(free: Seq<nat>, r: ResourceRequest) -> Option<Seq<nat>> {
    match pool_of(r.resource_type) {
        None => None,
        Some(p) => {
            let n = (r.quantity as u32) as nat;
            if n <= free[p] {
                Some(free.update(p, (free[p] - n) as nat))
            } else {
                None
            }
        },
    }
}

/// What working through the pending queue from the front does: each request
/// that can be granted is granted (recorded by id) and leaves the queue; the
/// others stay, in order.
pub open spec fn serve_pending(v: ManagerView, q: Seq<ResourceRequest>, now: i64) -> ManagerView
    decreases q.len(),
{
    if q.len() == 0 {
        v
    } else {
        let r = q[0];
        let rest = q.subrange(1, q.len() as int);
        match try_take(v.free, r) {
            Some(f) => serve_pending(
                ManagerView {
                    free: f,
                    allocations: put_allocation(v.allocations, allocation_for(r, now)),
                    pending: v.pending,
                },
                rest,
                now,
            ),
            None => serve_pending(
                ManagerView {
                    free: v.free,
                    allocations: v.allocations,
                    pending: v.pending.push(r),
                },
                rest,
                now,
            ),
        }
    }
}

/// Resource usage statistics.
#[derive(Debug)]
pub struct ResourceUsageStats {
    pub browsers_used: usize,
    pub recording_sessions_used: usize,
    pub nuclei_scans_used: usize,
    pub intruder_attacks_used: usize,
    pub http_requests_used: usize,
    pub memory_used_mb: usize,
    pub limits: ResourceLimits,
}

/// A number for each resource type: browser 0, recording session 1, nuclei scan 2,
/// intruder attack 3, HTTP request 4, memory 5.
pub open spec fn type_code(t: ResourceType) -> int {
    match t {
        ResourceType::Browser => 0,
        ResourceType::RecordingSession => 1,
        ResourceType::NucleiScan => 2,
        ResourceType::IntruderAttack => 3,
        ResourceType::HttpRequest => 4,
        ResourceType::Memory(_) => 5,
    }
}

/// The total quantity held by allocations of the resource type with the given code.
pub open spec fn held(allocs: Seq<ResourceAllocation>, code: int) -> nat
    decreases allocs.len(),
{
    if allocs.len() == 0 {
        0
    } else {
        let last = allocs.last();
        held(allocs.drop_last(), code) + if type_code(last.resource_type) == code {
            last.quantity as nat
        } else {
            0
        }
    }
}

/// The megabytes held by memory allocations.
pub open spec fn memory_held(allocs: Seq<ResourceAllocation>) -> nat
    decreases allocs.len(),
{
    if allocs.len() == 0 {
        0
    } else {
        memory_held(allocs.drop_last()) + match allocs.last().resource_type {
            ResourceType::Memory(mb) => mb as nat,
            _ => 0,
        }
    }
}

/// "used > 80% of limit" as the system reads it for a pool measured in percent:
/// `used / limit * 100 > 80`; with a zero limit, any use counts as over.
pub open spec fn over_percent(used: nat, limit: nat) -> bool {
    if limit == 0 {
        used > 0
    } else {
        used * 5 > limit * 4
    }
}

impl ResourceUsageStats {
    /// Whether the system is under high load: more than 80% of the browsers, of
    /// the recording sessions or of the nuclei scans in use.
    pub fn is_high_load(&self) -> (r: bool)
        ensures
            r == (over_percent(self.browsers_used as nat, self.limits.max_browsers as nat)
                || over_percent(self.recording_sessions_used as nat, self.limits.max_recording_sessions as nat)
                || over_percent(self.nuclei_scans_used as nat, self.limits.max_nuclei_scans as nat)),
    {
        let b = self.browsers_used as u128;
        let bl = self.limits.max_browsers as u128;
        let browsers = if bl == 0 {
            b > 0
        } else {
            b * 5 > bl * 4
        };
        let r = self.recording_sessions_used as u128;
        let rl = self.limits.max_recording_sessions as u128;
        let recordings = if rl == 0 {
            r > 0
        } else {
            r * 5 > rl * 4
        };
        let n = self.nuclei_scans_used as u128;
        let nl = self.limits.max_nuclei_scans as u128;
        let scans = if nl == 0 {
            n > 0
        } else {
            n * 5 > nl * 4
        };
        browsers || recordings || scans
    }
}

/// Global resource manager.
pub struct ResourceManager {
    limits: ResourceLimits,
    allocations: Vec<ResourceAllocation>,
    browser_semaphore: Semaphore,
    recording_semaphore: Semaphore,
    nuclei_semaphore: Semaphore,
    intruder_semaphore: Semaphore,
    pending_requests: Vec<ResourceRequest>,
}

impl ResourceManager {
    /// The abstract state.
    pub closed spec fn view(&self) -> ManagerView {
        ManagerView {
            free: seq![
                free_permits(self.browser_semaphore),
                free_permits(self.recording_semaphore),
                free_permits(self.nuclei_semaphore),
                free_permits(self.intruder_semaphore),
            ],
            allocations: self.allocations@,
            pending: self.pending_requests@,
        }
    }

    /// The limits the manager was made with.
    pub closed spec fn limit_settings(&self) -> ResourceLimits {
        self.limits
    }

    /// The manager's invariant: its semaphores are open and hold no more than the
    /// semaphore maximum, and the pending queue is ordered by priority.
    pub closed spec fn wf(&self) -> bool {
        &&& !semaphore_closed(self.browser_semaphore)
        &&& !semaphore_closed(self.recording_semaphore)
        &&& !semaphore_closed(self.nuclei_semaphore)
        &&& !semaphore_closed(self.intruder_semaphore)
        &&& self.view().free.len() == 4
        &&& forall|p: int| 0 <= p < 4 ==> #[trigger] self.view().free[p] <= max_permits()
        &&& queue_sorted(self.pending_requests@)
        &&& forall|i: int| 0 <= i < self.pending_requests@.len() ==> takeable(#[trigger] self.pending_requests@[i])
    }

    /// A manager with the default limits.
    pub fn new() -> (m: ResourceManager)
        ensures
            m.wf(),
            m.limit_settings().max_browsers == 10,
            m.view().free == seq![10nat, 3nat, 5nat, 10nat],
            m.view().allocations.len() == 0,
            m.view().pending.len() == 0,
    {
        Self::with_limits(ResourceLimits::default_limits())
    }

    /// A manager with the given limits; every pool starts with all its permits free.
    pub fn with_limits(limits: ResourceLimits) -> (m: ResourceManager)
        requires
            limits.max_browsers <= max_permits(),
            limits.max_recording_sessions <= max_permits(),
            limits.max_nuclei_scans <= max_permits(),
            limits.max_intruder_attacks <= max_permits(),
        ensures
            m.wf(),
            m.limit_settings() == limits,
            m.view().free == seq![
                limits.max_browsers as nat,
                limits.max_recording_sessions as nat,
                limits.max_nuclei_scans as nat,
                limits.max_intruder_attacks as nat,
            ],
            m.view().allocations.len() == 0,
            m.view().pending.len() == 0,
    {
        ResourceManager {
            browser_semaphore: new_semaphore(limits.max_browsers),
            recording_semaphore: new_semaphore(limits.max_recording_sessions),
            nuclei_semaphore: new_semaphore(limits.max_nuclei_scans),
            intruder_semaphore: new_semaphore(limits.max_intruder_attacks),
            limits,
            allocations: Vec::new(),
            pending_requests: Vec::new(),
        }
    }

    fn pool_mut(&mut self, p: usize) -> (s: &mut Semaphore)
        requires
            p < 4,
        ensures
            *s == old(self).view_sem(p as int),
            final(self).view_sem(p as int) == *final(s),
            forall|q: int| 0 <= q < 4 && q != p ==> final(self).view_sem(q) == old(self).view_sem(q),
            final(self).allocations == old(self).allocations,
            final(self).pending_requests == old(self).pending_requests,
            final(self).limits == old(self).limits,
    {
        if p == 0 {
            &mut self.browser_semaphore
        } else if p == 1 {
            &mut self.recording_semaphore
        } else if p == 2 {
            &mut self.nuclei_semaphore
        } else {
            &mut self.intruder_semaphore
        }
    }

    closed spec fn view_sem(&self, p: int) -> Semaphore {
        if p == 0 {
            self.browser_semaphore
        } else if p == 1 {
            self.recording_semaphore
        } else if p == 2 {
            self.nuclei_semaphore
        } else {
            self.intruder_semaphore
        }
    }

    proof fn lemma_view_sem(&self)
        ensures
            forall|p: int| 0 <= p < 4 ==> #[trigger] self.view().free[p] == free_permits(self.view_sem(p)),
            self.view().free.len() == 4,
            self.wf() ==> forall|p: int| 0 <= p < 4 ==> !semaphore_closed(#[trigger] self.view_sem(p)),
    {
    }

    /// Tries to take the permits of a request from its pool now.
    fn try_allocate(&mut self, request: &ResourceRequest, now: i64) -> (r: Result<ResourceAllocation, String>)
        requires
            old(self).wf(),
            takeable(*request),
        ensures
            final(self).wf(),
            final(self).limit_settings() == old(self).limit_settings(),
            final(self).view().allocations == old(self).view().allocations,
            final(self).view().pending == old(self).view().pending,
            match try_take(old(self).view().free, *request) {
                Some(f) => r == Ok::<ResourceAllocation, String>(allocation_for(*request, now))
                    && final(self).view().free == f,
                None => r matches Err(msg) && msg@ == denial_text(request.resource_type)
                    && final(self).view().free == old(self).view().free,
            },
    {
        proof {
            self.lemma_view_sem();
            reveal_strlit("Per-agent HTTP request limits not implemented");
            reveal_strlit("Memory limits not implemented");
        }
        let p: usize = match request.resource_type {
            ResourceType::Browser => 0,
            ResourceType::RecordingSession => 1,
            ResourceType::NucleiScan => 2,
            ResourceType::IntruderAttack => 3,
            ResourceType::HttpRequest => {
                return Err(owned("Per-agent HTTP request limits not implemented"));
            },
            ResourceType::Memory(_) => {
                return Err(owned("Memory limits not implemented"));
            },
        };
        let n = request.quantity as u32;
        let ghost before = old(self).view().free;
        let ok = {
            let s = self.pool_mut(p);
            take_permits(s, n)
        };
        proof {
            self.lemma_view_sem();
            assert(self.view().free =~= if ok {
                before.update(p as int, (before[p as int] - n) as nat)
            } else {
                before
            });
        }
        if ok {
            Ok(
                ResourceAllocation {
                    id: request.id,
                    module: request.module,
                    resource_type: request.resource_type,
                    quantity: request.quantity,
                    allocated_at: now,
                },
            )
        } else {
            let mut msg = owned("Insufficient ");
            let word = match request.resource_type {
                ResourceType::Browser => "browser",
                ResourceType::RecordingSession => "recording session",
                ResourceType::NucleiScan => "nuclei scan",
                _ => "intruder attack",
            };
            append_str(&mut msg, word);
            append_str(&mut msg, " resources available");
            Err(msg)
        }
    }

    fn find_index(&self, id: u128) -> (r: Option<usize>)
        ensures
            match r {
                Some(i) => find_allocation(self.allocations@, id) == i && i < self.allocations@.len(),
                None => find_allocation(self.allocations@, id) == -1,
            },
    {
        let mut i: usize = 0;
        while i < self.allocations.len()
            invariant
                i <= self.allocations@.len(),
                forall|j: int| 0 <= j < i ==> (#[trigger] self.allocations@[j]).id != id,
            decreases self.allocations.len() - i,
        {
            if self.allocations[i].id == id {
                proof {
                    lemma_find_allocation(self.allocations@, id, i as int);
                }
                return Some(i);
            }
            i = i + 1;
        }
        proof {
            lemma_find_allocation(self.allocations@, id, i as int);
        }
        None
    }

    fn put(&mut self, a: ResourceAllocation)
        ensures
            final(self).allocations@ == put_allocation(old(self).allocations@, a),
            final(self).pending_requests == old(self).pending_requests,
            final(self).limits == old(self).limits,
            final(self).browser_semaphore == old(self).browser_semaphore,
            final(self).recording_semaphore == old(self).recording_semaphore,
            final(self).nuclei_semaphore == old(self).nuclei_semaphore,
            final(self).intruder_semaphore == old(self).intruder_semaphore,
    {
        match self.find_index(a.id) {
            Some(i) => {
                self.allocations.set(i, a);
            },
            None => {
                self.allocations.push(a);
            },
        }
    }

    fn enqueue(&mut self, r: ResourceRequest)
        requires
            queue_sorted(old(self).pending_requests@),
        ensures
            final(self).pending_requests@ == old(self).pending_requests@.insert(
                queue_position(old(self).pending_requests@, r),
                r,
            ),
            queue_sorted(final(self).pending_requests@),
            final(self).allocations == old(self).allocations,
            final(self).limits == old(self).limits,
            final(self).browser_semaphore == old(self).browser_semaphore,
            final(self).recording_semaphore == old(self).recording_semaphore,
            final(self).nuclei_semaphore == old(self).nuclei_semaphore,
            final(self).intruder_semaphore == old(self).intruder_semaphore,
    {
        let level = priority_value(r.priority);
        let mut i: usize = 0;
        while i < self.pending_requests.len() && priority_value(self.pending_requests[i].priority) >= level
            invariant
                i <= self.pending_requests@.len(),
                level == priority_level(r.priority),
                forall|j: int|
                    0 <= j < i ==> priority_level((#[trigger] self.pending_requests@[j]).priority) >= level,
            decreases self.pending_requests.len() - i,
        {
            i = i + 1;
        }
        let ghost q = self.pending_requests@;
        proof {
            lemma_queue_position(q, r, i as int);
        }
        self.pending_requests.insert(i, r);
        proof {
            let q2 = self.pending_requests@;
            assert forall|a: int, b: int|
                0 <= a < b < q2.len() implies priority_level((#[trigger] q2[a]).priority)
                >= priority_level((#[trigger] q2[b]).priority) by {
                if a < i && b < i {
                    assert(q2[a] == q[a] && q2[b] == q[b]);
                } else if a < i && b == i {
                    assert(q2[a] == q[a]);
                } else if a < i && b > i {
                    assert(q2[a] == q[a] && q2[b] == q[b - 1]);
                } else if a == i {
                    assert(q2[b] == q[b - 1]);
                } else {
                    assert(q2[a] == q[a - 1] && q2[b] == q[b - 1]);
                }
            }
        }
    }

    /// Requests resources: granted at once when the pool has the permits; otherwise
    /// queued when the priority is High or Critical, and denied below that.
    pub fn request_resource(&mut self, request: ResourceRequest, now: i64) -> (r: AllocationResult)
        requires
            old(self).wf(),
            takeable(request),
        ensures
            final(self).wf(),
            final(self).limit_settings() == old(self).limit_settings(),
            final(self).view() == request_outcome(old(self).view(), request, now),
            match try_take(old(self).view().free, request) {
                Some(f) => r == AllocationResult::Granted(allocation_for(request, now)),
                None => if priority_level(request.priority) >= 3 {
                    r == AllocationResult::Queued(request.id)
                } else {
                    r matches AllocationResult::Denied(m) && m@ == denial_text(request.resource_type)
                },
            },
    {
        match self.try_allocate(&request, now) {
            Ok(allocation) => {
                self.put(allocation);
                proof {
                    self.lemma_view_sem();
                }
                AllocationResult::Granted(allocation)
            },
            Err(reason) => {
                if priority_value(request.priority) >= 3 {
                    self.enqueue(request);
                    proof {
                        let q = self.pending_requests@;
                        assert forall|i: int| 0 <= i < q.len() implies takeable(#[trigger] q[i]) by {
                            let pos = queue_position(old(self).pending_requests@, request);
                            lemma_queue_position_bounds(old(self).pending_requests@, request);
                            if i < pos {
                                assert(q[i] == old(self).pending_requests@[i]);
                            } else if i > pos {
                                assert(q[i] == old(self).pending_requests@[i - 1]);
                            }
                        }
                    }
                    AllocationResult::Queued(request.id)
                } else {
                    AllocationResult::Denied(reason)
                }
            },
        }
    }

    /// Grants every pending request that now fits, front to back; the others stay queued.
    fn process_pending_requests(&mut self, now: i64)
        requires
            old(self).wf(),
        ensures
            final(self).wf(),
            final(self).limit_settings() == old(self).limit_settings(),
            final(self).view() == serve_pending(
                ManagerView {
                    free: old(self).view().free,
                    allocations: old(self).view().allocations,
                    pending: Seq::empty(),
                },
                old(self).view().pending,
                now,
            ),
    {
        let mut queue: Vec<ResourceRequest> = Vec::new();
        std::mem::swap(&mut queue, &mut self.pending_requests);
        let ghost q = queue@;
        let ghost start = ManagerView {
            free: old(self).view().free,
            allocations: old(self).view().allocations,
            pending: Seq::empty(),
        };
        let mut remaining: Vec<ResourceRequest> = Vec::new();
        let mut k: usize = 0;
        proof {
            self.lemma_view_sem();
            assert(remaining@ =~= Seq::<ResourceRequest>::empty());
            assert(q.subrange(0, q.len() as int) =~= q);
            assert(self.view().allocations == start.allocations);
        }
        while k < queue.len()
            invariant
                queue@ == q,
                queue_sorted(q),
                forall|i: int| 0 <= i < q.len() ==> takeable(#[trigger] q[i]),
                k <= q.len(),
                self.wf(),
                self.pending_requests@.len() == 0,
                self.limits == old(self).limits,
                queue_sorted(remaining@),
                forall|a: int, j: int|
                    0 <= a < remaining@.len() && k <= j < q.len() ==> priority_level(
                        (#[trigger] remaining@[a]).priority,
                    ) >= priority_level((#[trigger] q[j]).priority),
                forall|a: int| 0 <= a < remaining@.len() ==> takeable(#[trigger] remaining@[a]),
                serve_pending(
                    ManagerView {
                        free: self.view().free,
                        allocations: self.view().allocations,
                        pending: remaining@,
                    },
                    q.subrange(k as int, q.len() as int),
                    now,
                ) == serve_pending(start, q, now),
            decreases q.len() - k,
        {
            let request = queue[k];
            let ghost before = self.view();
            let ghost rest = q.subrange(k + 1, q.len() as int);
            assert(q.subrange(k as int, q.len() as int) =~= seq![request] + rest);
            assert(q.subrange(k as int, q.len() as int)[0] == request);
            assert(q.subrange(k as int, q.len() as int).subrange(1, q.len() - k) =~= rest);
            match self.try_allocate(&request, now) {
                Ok(allocation) => {
                    self.put(allocation);
                    proof {
                        self.lemma_view_sem();
                    }
                },
                Err(_) => {
                    let ghost r0 = remaining@;
                    remaining.push(request);
                    proof {
                        assert forall|a: int, b: int|
                            0 <= a < b < remaining@.len() implies priority_level(
                            (#[trigger] remaining@[a]).priority,
                        ) >= priority_level((#[trigger] remaining@[b]).priority) by {
                            if b < r0.len() {
                                assert(remaining@[a] == r0[a] && remaining@[b] == r0[b]);
                            } else {
                                assert(remaining@[a] == r0[a]);
                                assert(remaining@[b] == q[k as int]);
                            }
                        }
                        assert forall|a: int, j: int|
                            0 <= a < remaining@.len() && k + 1 <= j < q.len() implies priority_level(
                            (#[trigger] remaining@[a]).priority,
                        ) >= priority_level((#[trigger] q[j]).priority) by {
                            if a < r0.len() {
                                assert(remaining@[a] == r0[a]);
                            } else {
                                assert(remaining@[a] == q[k as int]);
                            }
                        }
                        assert forall|a: int| 0 <= a < remaining@.len() implies takeable(#[trigger] remaining@[a]) by {
                            if a < r0.len() {
                                assert(remaining@[a] == r0[a]);
                            }
                        }
                    }
                },
            }
            k = k + 1;
        }
        proof {
            assert(q.subrange(k as int, q.len() as int) =~= Seq::<ResourceRequest>::empty());
        }
        self.pending_requests = remaining;
        proof {
            self.lemma_view_sem();
        }
    }

    /// Releases an allocation: its permits go back to its pool and the pending
    /// queue is served; an unknown id is an error and changes nothing.
    pub fn release_resource(&mut self, allocation_id: u128, now: i64) -> (r: Result<(), String>)
        requires
            old(self).wf(),
            releasable(old(self).view(), allocation_id),
        ensures
            final(self).wf(),
            final(self).limit_settings() == old(self).limit_settings(),
            final(self).view() == release_outcome(old(self).view(), allocation_id, now),
            find_allocation(old(self).view().allocations, allocation_id) < 0 ==> (r matches Err(m)
                && m@ == not_found_text(allocation_id)),
            find_allocation(old(self).view().allocations, allocation_id) >= 0 ==> r is Ok,
    {
        proof {
            self.lemma_view_sem();
        }
        match self.find_index(allocation_id) {
            None => {
                let mut msg = owned("Allocation ");
                let idtext = uuid_string(allocation_id);
                append_str(&mut msg, idtext.as_str());
                append_str(&mut msg, " not found");
                proof {
                    reveal_strlit("Allocation ");
                    reveal_strlit(" not found");
                }
                Err(msg)
            },
            Some(i) => {
                let ghost v = self.view();
                let allocation = self.allocations.remove(i);
                let pool: Option<usize> = match allocation.resource_type {
                    ResourceType::Browser => Some(0),
                    ResourceType::RecordingSession => Some(1),
                    ResourceType::NucleiScan => Some(2),
                    ResourceType::IntruderAttack => Some(3),
                    _ => None,
                };
                match pool {
                    Some(p) => {
                        let s = self.pool_mut(p);
                        give_permits(s, allocation.quantity);
                    },
                    None => {},
                }
                proof {
                    self.lemma_view_sem();
                    assert(self.view().free =~= returned(v.free, allocation));
                    assert(self.view().allocations =~= v.allocations.remove(i as int));
                }
                self.process_pending_requests(now);
                Ok(())
            },
        }
    }

    /// Current usage: the quantity held per resource type, and the limits.
    pub fn get_usage_stats(&self) -> (r: ResourceUsageStats)
        requires
            usage_fits(self.view().allocations),
        ensures
            r.browsers_used == held(self.view().allocations, 0),
            r.recording_sessions_used == held(self.view().allocations, 1),
            r.nuclei_scans_used == held(self.view().allocations, 2),
            r.intruder_attacks_used == held(self.view().allocations, 3),
            r.http_requests_used == held(self.view().allocations, 4),
            r.memory_used_mb == memory_held(self.view().allocations),
            r.limits == self.limit_settings(),
    {
        let ghost a = self.allocations@;
        let mut stats = ResourceUsageStats {
            browsers_used: 0,
            recording_sessions_used: 0,
            nuclei_scans_used: 0,
            intruder_attacks_used: 0,
            http_requests_used: 0,
            memory_used_mb: 0,
            limits: self.limits,
        };
        let mut i: usize = 0;
        while i < self.allocations.len()
            invariant
                a == self.allocations@,
                usage_fits(a),
                i <= a.len(),
                stats.limits == self.limits,
                stats.browsers_used == held(a.subrange(0, i as int), 0int),
                stats.recording_sessions_used == held(a.subrange(0, i as int), 1int),
                stats.nuclei_scans_used == held(a.subrange(0, i as int), 2int),
                stats.intruder_attacks_used == held(a.subrange(0, i as int), 3int),
                stats.http_requests_used == held(a.subrange(0, i as int), 4int),
                stats.memory_used_mb == memory_held(a.subrange(0, i as int)),
            decreases a.len() - i,
        {
            let al = self.allocations[i];
            let ghost pre = a.subrange(0, i as int);
            let ghost post = a.subrange(0, i + 1);
            proof {
                assert(post.drop_last() =~= pre);
                assert(post.last() == al);
                lemma_held_prefix(a, 0int, i + 1);
                lemma_held_prefix(a, 1int, i + 1);
                lemma_held_prefix(a, 2int, i + 1);
                lemma_held_prefix(a, 3int, i + 1);
                lemma_held_prefix(a, 4int, i + 1);
                lemma_memory_prefix(a, i + 1);
                assert(usage_fits(a));
                assert(held(a.subrange(0, i + 1), 0int) <= usize::MAX);
                assert(held(a.subrange(0, i + 1), 1int) <= usize::MAX);
                assert(held(a.subrange(0, i + 1), 2int) <= usize::MAX);
                assert(held(a.subrange(0, i + 1), 3int) <= usize::MAX);
                assert(held(a.subrange(0, i + 1), 4int) <= usize::MAX);
            }
            match al.resource_type {
                ResourceType::Browser => stats.browsers_used = stats.browsers_used + al.quantity,
                ResourceType::RecordingSession => stats.recording_sessions_used =
                stats.recording_sessions_used + al.quantity,
                ResourceType::NucleiScan => stats.nuclei_scans_used = stats.nuclei_scans_used + al.quantity,
                ResourceType::IntruderAttack => stats.intruder_attacks_used = stats.intruder_attacks_used
                    + al.quantity,
                ResourceType::HttpRequest => stats.http_requests_used = stats.http_requests_used
                    + al.quantity,
                ResourceType::Memory(mb) => stats.memory_used_mb = stats.memory_used_mb + mb,
            }
            i = i + 1;
        }
        proof {
            assert(a.subrange(0, a.len() as int) =~= a);
        }
        stats
    }
}

/// The state after a resource request: granted, queued (High or Critical), or unchanged.
pub open spec fn request_outcome(v: ManagerView, r: ResourceRequest, now: i64) -> ManagerView {
    match try_take(v.free, r) {
        Some(f) => ManagerView {
            free: f,
            allocations: put_allocation(v.allocations, allocation_for(r, now)),
            pending: v.pending,
        },
        None => if priority_level(r.priority) >= 3 {
            ManagerView {
                free: v.free,
                allocations: v.allocations,
                pending: v.pending.insert(queue_position(v.pending, r), r),
            }
        } else {
            v
        },
    }
}

/// The state after releasing allocation `id`: its permits return to its pool, it
/// leaves the allocations, and the pending queue is served; unchanged for an unknown id.
pub open spec fn release_outcome(v: ManagerView, id: u128, now: i64) -> ManagerView {
    let i = find_allocation(v.allocations, id);
    if i < 0 {
        v
    } else {
        serve_pending(
            ManagerView {
                free: returned(v.free, v.allocations[i]),
                allocations: v.allocations.remove(i),
                pending: Seq::empty(),
            },
            v.pending,
            now,
        )
    }
}

/// Free permits after the permits of `a` go back to its pool (unchanged for
/// types without a pool).
pub open spec fn returned(free: Seq<nat>, a: ResourceAllocation) -> Seq<nat> {
    match pool_of(a.resource_type) {
        Some(p) => free.update(p, free[p] + a.quantity as nat),
        None => free,
    }
}

/// Releasing `id` cannot overflow its pool (the semaphore maximum).
pub open spec fn releasable(v: ManagerView, id: u128) -> bool {
    let i = find_allocation(v.allocations, id);
    i >= 0 ==> match pool_of(v.allocations[i].resource_type) {
        Some(p) => v.free[p] + v.allocations[i].quantity <= max_permits(),
        None => true,
    }
}

/// Every per-type total of the allocations fits in a `usize`.
pub open spec fn usage_fits(a: Seq<ResourceAllocation>) -> bool {
    forall|k: int| 0 <= k <= a.len() ==> {
        &&& #[trigger] held(a.subrange(0, k), 0) <= usize::MAX
        &&& held(a.subrange(0, k), 1) <= usize::MAX
        &&& held(a.subrange(0, k), 2) <= usize::MAX
        &&& held(a.subrange(0, k), 3) <= usize::MAX
        &&& held(a.subrange(0, k), 4) <= usize::MAX
        &&& memory_held(a.subrange(0, k)) <= usize::MAX
    }
}

proof fn lemma_held_prefix(a: Seq<ResourceAllocation>, code: int, k: int)
    requires
        0 < k <= a.len(),
    ensures
        held(a.subrange(0, k), code) == held(a.subrange(0, k - 1), code) + if type_code(a[k - 1].resource_type) == code {
            a[k - 1].quantity as nat
        } else {
            0
        },
{
    assert(a.subrange(0, k).drop_last() =~= a.subrange(0, k - 1));
}

proof fn lemma_memory_prefix(a: Seq<ResourceAllocation>, k: int)
    requires
        0 < k <= a.len(),
    ensures
        memory_held(a.subrange(0, k)) == memory_held(a.subrange(0, k - 1)) + match a[k - 1].resource_type {
            ResourceType::Memory(mb) => mb as nat,
            _ => 0,
        },
{
    assert(a.subrange(0, k).drop_last() =~= a.subrange(0, k - 1));
}

proof fn lemma_find_allocation(allocs: Seq<ResourceAllocation>, id: u128, k: int)
    requires
        0 <= k <= allocs.len(),
        forall|j: int| 0 <= j < k ==> (#[trigger] allocs[j]).id != id,
        k < allocs.len() ==> allocs[k].id == id,
    ensures
        find_allocation(allocs, id) == if k < allocs.len() { k } else { -1 },
    decreases allocs.len(),
{
    if allocs.len() == 0 {
    } else if allocs[0].id == id {
    } else {
        let t = allocs.subrange(1, allocs.len() as int);
        assert forall|j: int| 0 <= j < k - 1 implies (#[trigger] t[j]).id != id by {
            assert(t[j] == allocs[j + 1]);
        }
        if k - 1 < t.len() {
            assert(t[k - 1] == allocs[k]);
        }
        lemma_find_allocation(t, id, k - 1);
    }
}

proof fn lemma_queue_position(q: Seq<ResourceRequest>, r: ResourceRequest, k: int)
    requires
        0 <= k <= q.len(),
        forall|j: int| 0 <= j < k ==> priority_level((#[trigger] q[j]).priority) >= priority_level(r.priority),
        k < q.len() ==> priority_level(q[k].priority) < priority_level(r.priority),
    ensures
        queue_position(q, r) == k,
    decreases q.len(),
{
    if q.len() == 0 {
    } else if priority_level(q[0].priority) < priority_level(r.priority) {
    } else {
        let t = q.subrange(1, q.len() as int);
        assert forall|j: int| 0 <= j < k - 1 implies priority_level((#[trigger] t[j]).priority)
            >= priority_level(r.priority) by {
            assert(t[j] == q[j + 1]);
        }
        if k - 1 < t.len() {
            assert(t[k - 1] == q[k]);
        }
        lemma_queue_position(t, r, k - 1);
    }
}

proof fn lemma_queue_position_bounds(q: Seq<ResourceRequest>, r: ResourceRequest)
    ensures
        0 <= queue_position(q, r) <= q.len(),
    decreases q.len(),
{
    if q.len() > 0 && priority_level(q[0].priority) >= priority_level(r.priority) {
        lemma_queue_position_bounds(q.subrange(1, q.len() as int), r);
    }
}

/// What one allocation adds to the held total of the type with the given code.
pub open spec fn contribution(a: ResourceAllocation, code: int) -> nat {
    if type_code(a.resource_type) == code {
        a.quantity as nat
    } else {
        0
    }
}

proof fn lemma_held_concat(a: Seq<ResourceAllocation>, b: Seq<ResourceAllocation>, code: int)
    ensures
        held(a + b, code) == held(a, code) + held(b, code),
    decreases b.len(),
{
    if b.len() == 0 {
        assert(a + b =~= a);
    } else {
        assert((a + b).drop_last() =~= a + b.drop_last());
        assert((a + b).last() == b.last());
        lemma_held_concat(a, b.drop_last(), code);
    }
}

proof fn lemma_held_single(x: ResourceAllocation, code: int)
    ensures
        held(seq![x], code) == contribution(x, code),
{
    assert(seq![x].drop_last() =~= Seq::<ResourceAllocation>::empty());
    assert(seq![x].last() == x);
    assert(held(Seq::<ResourceAllocation>::empty(), code) == 0);
}

proof fn lemma_held_split(s: Seq<ResourceAllocation>, i: int, code: int)
    requires
        0 <= i < s.len(),
    ensures
        held(s, code) == held(s.subrange(0, i), code) + contribution(s[i], code) + held(
            s.subrange(i + 1, s.len() as int),
            code,
        ),
{
    assert(s =~= s.subrange(0, i) + seq![s[i]] + s.subrange(i + 1, s.len() as int));
    lemma_held_concat(s.subrange(0, i) + seq![s[i]], s.subrange(i + 1, s.len() as int), code);
    lemma_held_concat(s.subrange(0, i), seq![s[i]], code);
    lemma_held_single(s[i], code);
}

proof fn lemma_held_update(s: Seq<ResourceAllocation>, i: int, a: ResourceAllocation, code: int)
    requires
        0 <= i < s.len(),
    ensures
        held(s.update(i, a), code) + contribution(s[i], code) == held(s, code) + contribution(a, code),
{
    lemma_held_split(s, i, code);
    lemma_held_split(s.update(i, a), i, code);
    assert(s.update(i, a).subrange(0, i) =~= s.subrange(0, i));
    assert(s.update(i, a).subrange(i + 1, s.len() as int) =~= s.subrange(i + 1, s.len() as int));
}

proof fn lemma_held_remove(s: Seq<ResourceAllocation>, i: int, code: int)
    requires
        0 <= i < s.len(),
    ensures
        held(s.remove(i), code) + contribution(s[i], code) == held(s, code),
{
    lemma_held_split(s, i, code);
    assert(s.remove(i) =~= s.subrange(0, i) + s.subrange(i + 1, s.len() as int));
    lemma_held_concat(s.subrange(0, i), s.subrange(i + 1, s.len() as int), code);
}

proof fn lemma_held_push(s: Seq<ResourceAllocation>, a: ResourceAllocation, code: int)
    ensures
        held(s.push(a), code) == held(s, code) + contribution(a, code),
{
    assert(s.push(a).drop_last() =~= s);
}

proof fn lemma_find_allocation_range(allocs: Seq<ResourceAllocation>, id: u128)
    ensures
        -1 <= find_allocation(allocs, id) < allocs.len(),
        find_allocation(allocs, id) >= 0 ==> allocs[find_allocation(allocs, id)].id == id,
        find_allocation(allocs, id) < 0 ==> forall|j: int| 0 <= j < allocs.len() ==> (#[trigger] allocs[j]).id != id,
    decreases allocs.len(),
{
    if allocs.len() > 0 && allocs[0].id != id {
        let t = allocs.subrange(1, allocs.len() as int);
        lemma_find_allocation_range(t, id);
        if find_allocation(allocs, id) < 0 {
            assert forall|j: int| 0 <= j < allocs.len() implies (#[trigger] allocs[j]).id != id by {
                if j > 0 {
                    assert(allocs[j] == t[j - 1]);
                }
            }
        }
    }
}

/// Permit accounting for a limit set: in each pool, the free permits plus the
/// quantity held by allocations of that pool's type never exceed the pool's limit,
/// and every allocated or queued quantity fits in a `u32` (the unit of a semaphore request).
pub open spec fn accounted(v: ManagerView, limits: ResourceLimits) -> bool {
    &&& v.free.len() == 4
    &&& forall|p: int| 0 <= p < 4 ==> #[trigger] v.free[p] + held(v.allocations, p) <= limits.pool_limit(p)
    &&& forall|i: int| 0 <= i < v.allocations.len() ==> (#[trigger] v.allocations[i]).quantity <= u32::MAX
    &&& forall|i: int| 0 <= i < v.pending.len() ==> (#[trigger] v.pending[i]).quantity <= u32::MAX
}

proof fn lemma_grant_accounted(v: ManagerView, limits: ResourceLimits, r: ResourceRequest, now: i64)
    requires
        accounted(v, limits),
        r.quantity <= u32::MAX,
        try_take(v.free, r) is Some,
    ensures
        accounted(
            ManagerView {
                free: try_take(v.free, r)->0,
                allocations: put_allocation(v.allocations, allocation_for(r, now)),
                pending: v.pending,
            },
            limits,
        ),
{
    let a = allocation_for(r, now);
    let f = try_take(v.free, r)->0;
    let allocs2 = put_allocation(v.allocations, a);
    let i = find_allocation(v.allocations, a.id);
    lemma_find_allocation_range(v.allocations, a.id);
    assert(((r.quantity as u32) as nat) == r.quantity as nat);
    assert forall|p: int| 0 <= p < 4 implies #[trigger] f[p] + held(allocs2, p) <= limits.pool_limit(p) by {
        assert(v.free[p] + held(v.allocations, p) <= limits.pool_limit(p));
        if i < 0 {
            lemma_held_push(v.allocations, a, p);
        } else {
            lemma_held_update(v.allocations, i, a, p);
        }
    }
    assert forall|k: int| 0 <= k < allocs2.len() implies (#[trigger] allocs2[k]).quantity <= u32::MAX by {
        if i < 0 {
            if k < v.allocations.len() {
                assert(allocs2[k] == v.allocations[k]);
            }
        } else {
            if k != i {
                assert(allocs2[k] == v.allocations[k]);
            }
        }
    }
}

proof fn lemma_serve_accounted(v: ManagerView, limits: ResourceLimits, q: Seq<ResourceRequest>, now: i64)
    requires
        accounted(v, limits),
        forall|i: int| 0 <= i < q.len() ==> (#[trigger] q[i]).quantity <= u32::MAX,
    ensures
        accounted(serve_pending(v, q, now), limits),
    decreases q.len(),
{
    if q.len() > 0 {
        let r = q[0];
        let rest = q.subrange(1, q.len() as int);
        assert forall|i: int| 0 <= i < rest.len() implies (#[trigger] rest[i]).quantity <= u32::MAX by {
            assert(rest[i] == q[i + 1]);
        }
        match try_take(v.free, r) {
            Some(f) => {
                lemma_grant_accounted(v, limits, r, now);
                lemma_serve_accounted(
                    ManagerView {
                        free: f,
                        allocations: put_allocation(v.allocations, allocation_for(r, now)),
                        pending: v.pending,
                    },
                    limits,
                    rest,
                    now,
                );
            },
            None => {
                let v2 = ManagerView { free: v.free, allocations: v.allocations, pending: v.pending.push(r) };
                assert forall|i: int| 0 <= i < v2.pending.len() implies (#[trigger] v2.pending[i]).quantity
                    <= u32::MAX by {
                    if i < v.pending.len() {
                        assert(v2.pending[i] == v.pending[i]);
                    }
                }
                lemma_serve_accounted(v2, limits, rest, now);
            },
        }
    }
}

/// Permits are conserved by requests: if the free permits plus the held quantities
/// stay within each pool's limit before a request whose quantity fits in a `u32`,
/// they do after it (whether it is granted, queued or denied).
pub proof fn law_request_keeps_accounting(
    v: ManagerView,
    limits: ResourceLimits,
    r: ResourceRequest,
    now: i64,
)
    requires
        accounted(v, limits),
        r.quantity <= u32::MAX,
    ensures
        accounted(request_outcome(v, r, now), limits),
{
    match try_take(v.free, r) {
        Some(f) => {
            lemma_grant_accounted(v, limits, r, now);
        },
        None => {
            if priority_level(r.priority) >= 3 {
                let pos = queue_position(v.pending, r);
                lemma_queue_position_bounds(v.pending, r);
                let q2 = v.pending.insert(pos, r);
                assert forall|i: int| 0 <= i < q2.len() implies (#[trigger] q2[i]).quantity <= u32::MAX by {
                    if i < pos {
                        assert(q2[i] == v.pending[i]);
                    } else if i > pos {
                        assert(q2[i] == v.pending[i - 1]);
                    }
                }
            }
        },
    }
}

/// Permits are conserved by releases: releasing an allocation returns exactly its
/// quantity to its pool, and the pending requests then granted take theirs, so the
/// accounting bound still holds afterwards.
pub proof fn law_release_keeps_accounting(v: ManagerView, limits: ResourceLimits, id: u128, now: i64)
    requires
        accounted(v, limits),
    ensures
        accounted(release_outcome(v, id, now), limits),
{
    let i = find_allocation(v.allocations, id);
    lemma_find_allocation_range(v.allocations, id);
    if i >= 0 {
        let a = v.allocations[i];
        let v1 = ManagerView {
            free: returned(v.free, a),
            allocations: v.allocations.remove(i),
            pending: Seq::empty(),
        };
        assert forall|p: int| 0 <= p < 4 implies #[trigger] v1.free[p] + held(v1.allocations, p)
            <= limits.pool_limit(p) by {
            assert(v.free[p] + held(v.allocations, p) <= limits.pool_limit(p));
            lemma_held_remove(v.allocations, i, p);
        }
        assert forall|k: int| 0 <= k < v1.allocations.len() implies (#[trigger] v1.allocations[k]).quantity
            <= u32::MAX by {
            if k < i {
                assert(v1.allocations[k] == v.allocations[k]);
            } else {
                assert(v1.allocations[k] == v.allocations[k + 1]);
            }
        }
        lemma_serve_accounted(v1, limits, v.pending, now);
    }
}

/// A granted request released again leaves no trace: with nothing queued and an id
/// no allocation holds, requesting a pool resource that is granted and then
/// releasing it by the same id restores every free count and the allocations.
pub proof fn law_release_undoes_grant(v: ManagerView, r: ResourceRequest, now: i64, later: i64)
    requires
        v.free.len() == 4,
        v.pending.len() == 0,
        find_allocation(v.allocations, r.id) < 0,
        r.quantity <= u32::MAX,
        try_take(v.free, r) is Some,
    ensures
        release_outcome(request_outcome(v, r, now), r.id, later) == v,
{
    let a = allocation_for(r, now);
    let v1 = request_outcome(v, r, now);
    assert(v1.allocations == v.allocations.push(a));
    lemma_find_allocation_range(v.allocations, r.id);
    lemma_find_allocation(v1.allocations, r.id, v.allocations.len() as int);
    assert(v1.allocations.remove(v.allocations.len() as int) =~= v.allocations);
    let p = pool_of(r.resource_type)->0;
    assert(((r.quantity as u32) as nat) == r.quantity as nat);
    assert(returned(v1.free, a) =~= v.free);
    assert(Seq::<ResourceRequest>::empty() =~= v.pending);
}

/// High load is "more than 80% in use" for every pool: with a positive limit a
/// pool is over exactly when 100 times its use exceeds 80 times its limit, so a
/// full pool is always over and one at most 80% used never is.
pub proof fn law_high_load_threshold(used: nat, limit: nat)
    ensures
        limit > 0 ==> (over_percent(used, limit) <==> used * 100 > limit * 80),
        limit > 0 && used >= limit ==> over_percent(used, limit),
        used * 100 <= limit * 80 ==> !over_percent(used, limit),
{
}

} // verus!
