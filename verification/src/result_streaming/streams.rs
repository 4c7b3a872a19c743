//! The result streams of running attacks and repeater tabs: for each source,
//! the statistics being kept and the results stored for export, with the
//! highlight rules in force.

use vstd::prelude::*;
use super::{
    agent_stats_index, apply_highlighting_rules, create_default_highlight_rules, get_source_id, highlight_reasons,
    is_default_rules, lemma_agent_stats_index, source_key, statistics_after, tracker_has_room, HighlightingConfig,
    ResultSource, StatisticsTracker, StreamedResult,
};
use crate::database::intruder::IntruderResult;
use crate::database::repeater::RepeaterExecution;
use crate::engine::{AttackError, HttpResponseData};
use crate::graphql::{json_string_list, parse_json_string_list};
use crate::text::{append_str, owned, str_eq, texts};

verus! {

/// The statistics kept for one source.
#[derive(Debug)]
pub struct TrackedSource {
    pub source_id: String,
    pub tracker: StatisticsTracker,
}

/// The results stored for one source, in arrival order.
#[derive(Debug)]
pub struct StoredResults {
    pub source_id: String,
    pub results: Vec<StreamedResult>,
}

/// Statistics and stored results per source, and the highlight rules.
#[derive(Debug)]
pub struct ResultStreamingManager {
    pub trackers: Vec<TrackedSource>,
    pub storage: Vec<StoredResults>,
    pub highlighting: HighlightingConfig,
}

/// Position of the first occurrence of `key`, or -1.
pub open spec fn key_index(keys: Seq<Seq<char>>, key: Seq<char>) -> int
    decreases keys.len(),
{
    if keys.len() == 0 {
        -1
    } else if keys[0] == key {
        0
    } else {
        let k = key_index(keys.drop_first(), key);
        if k < 0 { -1 } else { k + 1 }
    }
}

proof fn lemma_key_index(keys: Seq<Seq<char>>, key: Seq<char>)
    ensures
        -1 <= key_index(keys, key) < keys.len(),
        key_index(keys, key) >= 0 ==> keys[key_index(keys, key)] == key,
        key_index(keys, key) >= 0 ==> forall|t: int| 0 <= t < key_index(keys, key) ==> keys[t] != key,
        key_index(keys, key) < 0 ==> forall|t: int| 0 <= t < keys.len() ==> keys[t] != key,
    decreases keys.len(),
{
    if keys.len() > 0 {
        lemma_key_index(keys.drop_first(), key);
        assert forall|t: int| 0 < t < keys.len() implies keys[t] == keys.drop_first()[t - 1] by {}
    }
}

/// A key's position is the first place it occurs.
proof fn lemma_key_index_is(keys: Seq<Seq<char>>, key: Seq<char>, f: int)
    requires
        -1 <= f < keys.len(),
        f >= 0 ==> keys[f] == key,
        forall|t: int| 0 <= t < keys.len() && (f < 0 || t < f) ==> keys[t] != key,
    ensures
        key_index(keys, key) == f,
{
    lemma_key_index(keys, key);
    let g = key_index(keys, key);
    if g >= 0 && f >= 0 {
        if g < f {
            assert(keys[g] != key);
        }
        if f < g {
            assert(keys[f] != key);
        }
    } else if g >= 0 {
        assert(keys[g] != key);
    } else if f >= 0 {
        assert(keys[f] != key);
    }
}

/// The source ids of the trackers, in order.
pub open spec fn tracker_keys(t: Seq<TrackedSource>) -> Seq<Seq<char>> {
    t.map_values(|x: TrackedSource| x.source_id@)
}

/// The source ids of the stored results, in order.
pub open spec fn storage_keys(s: Seq<StoredResults>) -> Seq<Seq<char>> {
    s.map_values(|x: StoredResults| x.source_id@)
}

/// The statistics kept for source `key`, if any.
pub open spec fn tracker_for(t: Seq<TrackedSource>, key: Seq<char>) -> Option<StatisticsTracker> {
    let k = key_index(tracker_keys(t), key);
    if k >= 0 { Some(t[k].tracker) } else { None }
}

/// The results stored for source `key`, if any.
pub open spec fn results_for(s: Seq<StoredResults>, key: Seq<char>) -> Option<Seq<StreamedResult>> {
    let k = key_index(storage_keys(s), key);
    if k >= 0 { Some(s[k].results@) } else { None }
}

/// No key occurs twice.
pub open spec fn distinct_keys(keys: Seq<Seq<char>>) -> bool {
    forall|a: int, b: int| 0 <= a < keys.len() && 0 <= b < keys.len() && a != b ==> keys[a] != keys[b]
}

/// Fresh statistics for a source expecting `total` results, started at `now`.
pub open spec fn is_fresh_tracker(t: StatisticsTracker, total: usize, now: i64) -> bool {
    &&& t.start_time == now && t.last_update == now && t.total_requests == total
    &&& t.completed_requests == 0 && t.successful_requests == 0 && t.failed_requests == 0
    &&& t.highlighted_results == 0
    &&& t.response_times@.len() == 0 && t.status_codes@.len() == 0 && t.agent_stats@.len() == 0
}

fn find_key_tracked(t: &Vec<TrackedSource>, key: &str) -> (k: Option<usize>)
    ensures
        match k {
            Some(i) => i == key_index(tracker_keys(t@), key@) && i < t@.len(),
            None => key_index(tracker_keys(t@), key@) < 0,
        },
{
    let ghost keys = tracker_keys(t@);
    let mut i: usize = 0;
    while i < t.len()
        invariant
            i <= t@.len(),
            keys == tracker_keys(t@),
            forall|u: int| 0 <= u < i ==> keys[u] != key@,
        decreases t.len() - i,
    {
        if str_eq(t[i].source_id.as_str(), key) {
            proof {
                lemma_key_index_is(keys, key@, i as int);
            }
            return Some(i);
        }
        i = i + 1;
    }
    proof {
        lemma_key_index_is(keys, key@, -1);
    }
    None
}

fn find_key_stored(s: &Vec<StoredResults>, key: &str) -> (k: Option<usize>)
    ensures
        match k {
            Some(i) => i == key_index(storage_keys(s@), key@) && i < s@.len(),
            None => key_index(storage_keys(s@), key@) < 0,
        },
{
    let ghost keys = storage_keys(s@);
    let mut i: usize = 0;
    while i < s.len()
        invariant
            i <= s@.len(),
            keys == storage_keys(s@),
            forall|u: int| 0 <= u < i ==> keys[u] != key@,
        decreases s.len() - i,
    {
        if str_eq(s[i].source_id.as_str(), key) {
            proof {
                lemma_key_index_is(keys, key@, i as int);
            }
            return Some(i);
        }
        i = i + 1;
    }
    proof {
        lemma_key_index_is(keys, key@, -1);
    }
    None
}

/// Changing the entry at `i`, which holds neither `key` before nor after,
/// leaves the position of `key` as it was.
proof fn lemma_key_update(keys: Seq<Seq<char>>, i: int, x: Seq<char>, key: Seq<char>)
    requires
        0 <= i < keys.len(),
        keys[i] != key,
        x != key,
    ensures
        key_index(keys.update(i, x), key) == key_index(keys, key),
{
    lemma_key_index(keys, key);
    let f = key_index(keys, key);
    lemma_key_index_is(keys.update(i, x), key, f);
}

/// Appending an entry without `key` leaves the position of `key` as it was.
proof fn lemma_key_push(keys: Seq<Seq<char>>, x: Seq<char>, key: Seq<char>)
    requires
        x != key,
    ensures
        key_index(keys.push(x), key) == key_index(keys, key),
{
    lemma_key_index(keys, key);
    let f = key_index(keys, key);
    lemma_key_index_is(keys.push(x), key, f);
}

/// Removing the entry at `i`, which does not hold `key`, moves the position of
/// `key` down by one when it came after `i`.
proof fn lemma_key_remove(keys: Seq<Seq<char>>, i: int, key: Seq<char>)
    requires
        0 <= i < keys.len(),
        keys[i] != key,
    ensures
        ({
            let f = key_index(keys, key);
            key_index(keys.remove(i), key) == (if f > i { f - 1 } else { f })
        }),
{
    lemma_key_index(keys, key);
    let f = key_index(keys, key);
    let g = if f > i { f - 1 } else { f };
    let r = keys.remove(i);
    assert forall|t: int| 0 <= t < r.len() && (g < 0 || t < g) implies r[t] != key by {
        if t < i {
            assert(r[t] == keys[t]);
        } else {
            assert(r[t] == keys[t + 1]);
        }
    }
    if g >= 0 {
        if f < i {
            assert(r[g] == keys[f]);
        } else {
            assert(r[g] == keys[f]);
        }
    }
    lemma_key_index_is(r, key, g);
}


/// Two results are equal field by field.
pub open spec fn same_result(a: StreamedResult, b: StreamedResult) -> bool {
    &&& a.result_id == b.result_id && a.agent_id == b.agent_id && a.status_code == b.status_code
    &&& a.response_length == b.response_length && a.duration_ms == b.duration_ms && a.executed_at == b.executed_at
    &&& a.is_highlighted == b.is_highlighted && a.highlight_reasons@ == b.highlight_reasons@
    &&& match (a.payload_values, b.payload_values) {
        (Some(x), Some(y)) => x@ == y@,
        (None, None) => true,
        _ => false,
    }
}

/// `out` is `r` with the highlight rules applied, when there is a response to
/// apply them to: highlighted with the reasons of the enabled rules that match
/// (nothing when highlighting is off); without a response `r` is unchanged.
pub open spec fn highlighted_as(
    out: StreamedResult,
    r: StreamedResult,
    response: Option<HttpResponseData>,
    config: HighlightingConfig,
) -> bool {
    &&& out.result_id == r.result_id && out.agent_id == r.agent_id && out.status_code == r.status_code
    &&& out.response_length == r.response_length && out.duration_ms == r.duration_ms && out.executed_at == r.executed_at
    &&& out.payload_values == r.payload_values
    &&& match response {
        Some(resp) => if config.auto_highlight_enabled {
            texts(out.highlight_reasons@) == highlight_reasons(config.rules@, r, resp) && out.is_highlighted == (
            out.highlight_reasons@.len() > 0)
        } else {
            !out.is_highlighted && out.highlight_reasons@.len() == 0
        },
        None => out.is_highlighted == r.is_highlighted && out.highlight_reasons == r.highlight_reasons,
    }
}

fn copy_strings(v: &Vec<String>) -> (r: Vec<String>)
    ensures
        r@ == v@,
{
    let mut r: Vec<String> = Vec::new();
    let mut i: usize = 0;
    while i < v.len()
        invariant
            i <= v@.len(),
            r@ == v@.take(i as int),
        decreases v.len() - i,
    {
        r.push(v[i].clone());
        proof {
            assert(v@.take(i + 1) =~= v@.take(i as int).push(v@[i as int]));
        }
        i = i + 1;
    }
    proof {
        assert(v@.take(v@.len() as int) =~= v@);
    }
    r
}

/// A copy of a result.
pub fn duplicate_result(r: &StreamedResult) -> (d: StreamedResult)
    ensures
        same_result(d, *r),
{
    let payload_values = match &r.payload_values {
        Some(v) => Some(copy_strings(v)),
        None => None,
    };
    StreamedResult {
        result_id: r.result_id.clone(),
        agent_id: r.agent_id.clone(),
        status_code: r.status_code,
        response_length: r.response_length,
        duration_ms: r.duration_ms,
        executed_at: r.executed_at,
        payload_values,
        is_highlighted: r.is_highlighted,
        highlight_reasons: copy_strings(&r.highlight_reasons),
    }
}

/// Whether the counters can take one more result of agent `agent` (see `tracker_has_room`).
fn tracker_room(t: &StatisticsTracker, agent: &str) -> (b: bool)
    ensures
        b == tracker_has_room(*t, agent@),
{
    if t.completed_requests == usize::MAX || t.successful_requests == usize::MAX || t.failed_requests == usize::MAX
        || t.highlighted_results == usize::MAX {
        return false;
    }
    let mut i: usize = 0;
    while i < t.status_codes.len()
        invariant
            i <= t.status_codes@.len(),
            forall|k: int| 0 <= k < i ==> (#[trigger] t.status_codes@[k]).1 < usize::MAX,
        decreases t.status_codes.len() - i,
    {
        if t.status_codes[i].1 == usize::MAX {
            return false;
        }
        i = i + 1;
    }
    proof {
        lemma_agent_stats_index(t.agent_stats@, agent@);
    }
    let mut j: usize = 0;
    while j < t.agent_stats.len()
        invariant
            j <= t.agent_stats@.len(),
            forall|u: int| 0 <= u < j ==> t.agent_stats@[u].agent_id@ != agent@,
            t.completed_requests < usize::MAX && t.successful_requests < usize::MAX && t.failed_requests < usize::MAX
                && t.highlighted_results < usize::MAX,
            forall|k: int| 0 <= k < t.status_codes@.len() ==> (#[trigger] t.status_codes@[k]).1 < usize::MAX,
        decreases t.agent_stats.len() - j,
    {
        if str_eq(t.agent_stats[j].agent_id.as_str(), agent) {
            proof {
                lemma_agent_stats_index(t.agent_stats@, agent@);
                let f = agent_stats_index(t.agent_stats@, agent@);
                if f >= 0 && f < j {
                    assert(t.agent_stats@[f].agent_id@ == agent@);
                }
                if f < 0 {
                    assert(t.agent_stats@[j as int].agent_id@ != agent@);
                }
                assert(f == j);
            }
            let a = &t.agent_stats[j];
            return a.completed_requests < usize::MAX && a.successful_requests < usize::MAX && a.failed_requests
                < usize::MAX;
        }
        j = j + 1;
    }
    proof {
        let f = agent_stats_index(t.agent_stats@, agent@);
        if f >= 0 {
            assert(t.agent_stats@[f].agent_id@ == agent@);
        }
    }
    true
}


/// Whether chrono can represent the time `secs` seconds from the epoch.
pub uninterp spec fn secs_representable(secs: i64) -> bool;

/// `chrono::DateTime::from_timestamp(secs, 0)` then `timestamp_millis`: the
/// same instant in milliseconds when chrono can represent it (named by
/// `secs_representable`), `None` otherwise.
#[verifier::external_body]
pub fn secs_to_millis(secs: i64) -> (r: Option<i64>)
    ensures
        r is Some <==> secs_representable(secs),
        r matches Some(m) ==> m == secs * 1000,
{
    match chrono::DateTime::from_timestamp(secs, 0) {
        Some(d) => Some(d.timestamp_millis()),
        None => None,
    }
}

/// The time of a stored result in milliseconds: its seconds when chrono can
/// represent them, else `now`.
pub open spec fn stored_time_ms(secs: i64, now: i64) -> int {
    if secs_representable(secs) { secs * 1000 } else { now as int }
}

/// A stored intruder result as it is streamed at `now`: its payload values
/// when they parse as a JSON list of strings, not yet highlighted.
pub fn streamed_from_intruder(result: &IntruderResult, now: i64) -> (r: StreamedResult)
    ensures
        r.result_id == result.id && r.agent_id == result.agent_id && r.status_code == result.status_code,
        r.response_length == (match result.response_length {
            Some(l) => Some(l as usize),
            None => None,
        }),
        r.duration_ms == (match result.duration_ms {
            Some(d) => Some(d as u64),
            None => None,
        }),
        r.executed_at == stored_time_ms(result.executed_at, now),
        match r.payload_values {
            Some(v) => json_string_list(result.payload_values@) == Some(texts(v@)),
            None => json_string_list(result.payload_values@) is None,
        },
        !r.is_highlighted && r.highlight_reasons@.len() == 0,
{
    let executed_at = match secs_to_millis(result.executed_at) {
        Some(m) => m,
        None => now,
    };
    let response_length = match result.response_length {
        Some(l) => Some(l as usize),
        None => None,
    };
    let duration_ms = match result.duration_ms {
        Some(d) => Some(d as u64),
        None => None,
    };
    StreamedResult {
        result_id: result.id.clone(),
        agent_id: result.agent_id.clone(),
        status_code: result.status_code,
        response_length,
        duration_ms,
        executed_at,
        payload_values: parse_json_string_list(result.payload_values.as_str()),
        is_highlighted: false,
        highlight_reasons: Vec::new(),
    }
}

/// A repeater execution as it is streamed at `now`: no payloads, the
/// response's length when there is a response, not yet highlighted.
pub fn streamed_from_repeater(execution: &RepeaterExecution, response: Option<&HttpResponseData>, now: i64) -> (r: StreamedResult)
    ensures
        r.result_id == execution.id && r.agent_id == execution.agent_id && r.status_code == execution.status_code,
        r.response_length == (match response {
            Some(x) => Some(x.body@.len() as usize),
            None => None,
        }),
        r.duration_ms == (match execution.duration_ms {
            Some(d) => Some(d as u64),
            None => None,
        }),
        r.executed_at == stored_time_ms(execution.executed_at, now),
        r.payload_values is None,
        !r.is_highlighted && r.highlight_reasons@.len() == 0,
{
    let executed_at = match secs_to_millis(execution.executed_at) {
        Some(m) => m,
        None => now,
    };
    let response_length = match response {
        Some(x) => Some(x.body.len()),
        None => None,
    };
    let duration_ms = match execution.duration_ms {
        Some(d) => Some(d as u64),
        None => None,
    };
    StreamedResult {
        result_id: execution.id.clone(),
        agent_id: execution.agent_id.clone(),
        status_code: execution.status_code,
        response_length,
        duration_ms,
        executed_at,
        payload_values: None,
        is_highlighted: false,
        highlight_reasons: Vec::new(),
    }
}

impl ResultStreamingManager {
    /// The source ids are distinct, among the trackers and among the stored results.
    pub open spec fn wf(&self) -> bool {
        distinct_keys(tracker_keys(self.trackers@)) && distinct_keys(storage_keys(self.storage@))
    }

    /// No source tracked, nothing stored, and the default highlight rules
    /// (enabled, at most 1 000 highlighted results).
    pub fn new() -> (r: ResultStreamingManager)
        ensures
            r.wf(),
            r.trackers@.len() == 0,
            r.storage@.len() == 0,
            is_default_rules(r.highlighting.rules@),
            r.highlighting.max_highlighted_results == 1000,
            r.highlighting.auto_highlight_enabled,
    {
        let r = ResultStreamingManager {
            trackers: Vec::new(),
            storage: Vec::new(),
            highlighting: HighlightingConfig {
                rules: create_default_highlight_rules(),
                max_highlighted_results: 1000,
                auto_highlight_enabled: true,
            },
        };
        proof {
            assert(tracker_keys(r.trackers@) =~= Seq::<Seq<char>>::empty());
            assert(storage_keys(r.storage@) =~= Seq::<Seq<char>>::empty());
        }
        r
    }

    /// Replaces the highlight rules.
    pub fn update_highlighting_config(&mut self, config: HighlightingConfig) -> (r: Result<(), AttackError>)
        ensures
            r is Ok,
            final(self).highlighting == config,
            final(self).trackers == old(self).trackers,
            final(self).storage == old(self).storage,
    {
        self.highlighting = config;
        Ok(())
    }

    /// Starts keeping statistics for a source expecting `total_requests`
    /// results, from `now`, and an empty store for its results; an earlier
    /// tracking of the same source starts over.
    pub fn start_tracking(&mut self, source: &ResultSource, total_requests: usize, now: i64) -> (r: Result<(), AttackError>)
        requires
            old(self).wf(),
        ensures
            r is Ok,
            final(self).wf(),
            final(self).highlighting == old(self).highlighting,
            tracker_for(final(self).trackers@, source_key(*source)) matches Some(t) && is_fresh_tracker(t, total_requests, now),
            results_for(final(self).storage@, source_key(*source)) == Some(Seq::<StreamedResult>::empty()),
            forall|k: Seq<char>|
                k != source_key(*source) ==> #[trigger] tracker_for(final(self).trackers@, k) == tracker_for(old(self).trackers@, k)
                    && results_for(final(self).storage@, k) == results_for(old(self).storage@, k),
    {
        let key = get_source_id(source);
        let ghost kv = key@;
        let ghost t0 = self.trackers@;
        let ghost s0 = self.storage@;
        let tracker = StatisticsTracker::new(total_requests, now);
        let entry = TrackedSource { source_id: key.clone(), tracker };
        let ghost e = entry;
        let store = StoredResults { source_id: key.clone(), results: Vec::new() };
        let ghost st = store;
        let ti = find_key_tracked(&self.trackers, key.as_str());
        let si = find_key_stored(&self.storage, key.as_str());
        proof {
            lemma_key_index(tracker_keys(t0), kv);
            lemma_key_index(storage_keys(s0), kv);
        }
        match ti {
            Some(i) => {
                self.trackers.set(i, entry);
                proof {
                    assert(tracker_keys(self.trackers@) =~= tracker_keys(t0).update(i as int, kv));
                }
            },
            None => {
                self.trackers.push(entry);
                proof {
                    assert(tracker_keys(self.trackers@) =~= tracker_keys(t0).push(kv));
                }
            },
        }
        match si {
            Some(i) => {
                self.storage.set(i, store);
                proof {
                    assert(storage_keys(self.storage@) =~= storage_keys(s0).update(i as int, kv));
                }
            },
            None => {
                self.storage.push(store);
                proof {
                    assert(storage_keys(self.storage@) =~= storage_keys(s0).push(kv));
                }
            },
        }
        proof {
            let t1 = self.trackers@;
            let s1 = self.storage@;
            let tp: int = match ti { Some(i) => i as int, None => t0.len() as int };
            let sp: int = match si { Some(i) => i as int, None => s0.len() as int };
            assert(t1[tp] == e);
            assert(s1[sp] == st);
            assert forall|u: int| 0 <= u < t1.len() && u != tp implies t1[u] == t0[u] by {}
            assert forall|u: int| 0 <= u < s1.len() && u != sp implies s1[u] == s0[u] by {}
            lemma_key_index_is(tracker_keys(t1), kv, tp);
            lemma_key_index_is(storage_keys(s1), kv, sp);
            assert(st.results@ =~= Seq::<StreamedResult>::empty());
            assert forall|k: Seq<char>| k != kv implies #[trigger] tracker_for(t1, k) == tracker_for(t0, k)
                && results_for(s1, k) == results_for(s0, k) by {
                lemma_key_index(tracker_keys(t0), k);
                lemma_key_index(storage_keys(s0), k);
                match ti {
                    Some(i) => lemma_key_update(tracker_keys(t0), i as int, kv, k),
                    None => lemma_key_push(tracker_keys(t0), kv, k),
                }
                match si {
                    Some(i) => lemma_key_update(storage_keys(s0), i as int, kv, k),
                    None => lemma_key_push(storage_keys(s0), kv, k),
                }
            }
            assert forall|a: int, b: int|
                0 <= a < tracker_keys(t1).len() && 0 <= b < tracker_keys(t1).len() && a != b implies tracker_keys(t1)[a]
                != tracker_keys(t1)[b] by {
                if a != tp && b != tp {
                    assert(tracker_keys(t0)[a] != tracker_keys(t0)[b]);
                }
            }
            assert forall|a: int, b: int|
                0 <= a < storage_keys(s1).len() && 0 <= b < storage_keys(s1).len() && a != b implies storage_keys(s1)[a]
                != storage_keys(s1)[b] by {
                if a != sp && b != sp {
                    assert(storage_keys(s0)[a] != storage_keys(s0)[b]);
                }
            }
        }
        Ok(())
    }

    /// Stops keeping statistics for a source; its stored results stay.
    pub fn stop_tracking(&mut self, source: &ResultSource) -> (r: Result<(), AttackError>)
        requires
            old(self).wf(),
        ensures
            r is Ok,
            final(self).wf(),
            final(self).highlighting == old(self).highlighting,
            final(self).storage == old(self).storage,
            tracker_for(final(self).trackers@, source_key(*source)) is None,
            forall|k: Seq<char>|
                k != source_key(*source) ==> #[trigger] tracker_for(final(self).trackers@, k) == tracker_for(old(self).trackers@, k),
    {
        let key = get_source_id(source);
        let ghost kv = key@;
        let ghost t0 = self.trackers@;
        proof {
            lemma_key_index(tracker_keys(t0), kv);
        }
        match find_key_tracked(&self.trackers, key.as_str()) {
            Some(i) => {
                let _gone = self.trackers.remove(i);
                proof {
                    let t1 = self.trackers@;
                    let k0 = tracker_keys(t0);
                    assert(tracker_keys(t1) =~= k0.remove(i as int));
                    assert forall|u: int| 0 <= u < tracker_keys(t1).len() implies tracker_keys(t1)[u] != kv by {
                        if u < i {
                            assert(k0[u] != k0[i as int]);
                        } else {
                            assert(k0[u + 1] != k0[i as int]);
                        }
                    }
                    lemma_key_index_is(tracker_keys(t1), kv, -1);
                    assert forall|k: Seq<char>| k != kv implies #[trigger] tracker_for(t1, k) == tracker_for(t0, k) by {
                        lemma_key_index(k0, k);
                        lemma_key_remove(k0, i as int, k);
                        let f = key_index(k0, k);
                        if f > i {
                            assert(t1[f - 1] == t0[f]);
                        } else if f >= 0 {
                            assert(t1[f] == t0[f]);
                        }
                    }
                    assert forall|a: int, b: int|
                        0 <= a < tracker_keys(t1).len() && 0 <= b < tracker_keys(t1).len() && a != b implies tracker_keys(
                        t1,
                    )[a] != tracker_keys(t1)[b] by {
                        let a0 = if a < i { a } else { a + 1 };
                        let b0 = if b < i { b } else { b + 1 };
                        assert(k0[a0] != k0[b0]);
                    }
                }
            },
            None => {},
        }
        Ok(())
    }

    /// Whether the statistics of `source`, if it is tracked, can count one more
    /// result of agent `agent_id`.
    pub fn has_room(&self, source: &ResultSource, agent_id: &str) -> (b: bool)
        ensures
            b == (tracker_for(self.trackers@, source_key(*source)) matches Some(t) ==> tracker_has_room(t, agent_id@)),
    {
        let key = get_source_id(source);
        match find_key_tracked(&self.trackers, key.as_str()) {
            Some(i) => tracker_room(&self.trackers[i].tracker, agent_id),
            None => true,
        }
    }

    /// Takes in one result of `source` at `now`: applies the highlight rules
    /// when there is a response, counts it in the source's statistics, stores it
    /// when the source has a store, and returns it for the listeners. A source
    /// that is not tracked is refused.
    pub fn process_result(
        &mut self,
        source: &ResultSource,
        r: StreamedResult,
        response: Option<&HttpResponseData>,
        now: i64,
    ) -> (res: Result<StreamedResult, AttackError>)
        requires
            old(self).wf(),
            tracker_for(old(self).trackers@, source_key(*source)) matches Some(t) ==> tracker_has_room(t, r.agent_id@),
        ensures
            final(self).wf(),
            final(self).highlighting == old(self).highlighting,
            ({
                let key = source_key(*source);
                let resp = match response {
                    Some(x) => Some(*x),
                    None => None,
                };
                match tracker_for(old(self).trackers@, key) {
                    None => (res matches Err(AttackError::InvalidAttackConfig { reason })
                        && reason@ == "No statistics tracker found for source: "@ + key)
                        && final(self).trackers == old(self).trackers && final(self).storage == old(self).storage,
                    Some(t0) => res matches Ok(out) && highlighted_as(out, r, resp, old(self).highlighting)
                        && (tracker_for(final(self).trackers@, key) matches Some(t1) && statistics_after(t0, out, now, t1))
                        && match results_for(old(self).storage@, key) {
                        Some(v) => results_for(final(self).storage@, key) matches Some(w) && w.len() == v.len() + 1
                            && w.take(v.len() as int) == v && same_result(w.last(), out),
                        None => results_for(final(self).storage@, key) is None,
                    },
                }
            }),
            forall|k: Seq<char>|
                k != source_key(*source) ==> #[trigger] tracker_for(final(self).trackers@, k) == tracker_for(old(self).trackers@, k)
                    && results_for(final(self).storage@, k) == results_for(old(self).storage@, k),
    {
        let key = get_source_id(source);
        let ghost kv = key@;
        let ghost t0 = self.trackers@;
        let ghost s0 = self.storage@;
        let mut out = r;
        match response {
            Some(resp) => {
                let (h, reasons) = apply_highlighting_rules(&self.highlighting, &out, resp);
                out.is_highlighted = h;
                out.highlight_reasons = reasons;
            },
            None => {},
        }
        let i = match find_key_tracked(&self.trackers, key.as_str()) {
            Some(i) => i,
            None => {
                let mut m = owned("No statistics tracker found for source: ");
                append_str(&mut m, key.as_str());
                return Err(AttackError::InvalidAttackConfig { reason: m });
            },
        };
        proof {
            lemma_key_index(tracker_keys(t0), kv);
            lemma_key_index(storage_keys(s0), kv);
        }
        let mut entry = self.trackers.remove(i);
        entry.tracker.update_statistics(&out, now);
        let ghost ne = entry;
        self.trackers.insert(i, entry);
        proof {
            let t1 = self.trackers@;
            assert(t1 =~= t0.update(i as int, ne));
            assert(tracker_keys(t1) =~= tracker_keys(t0));
        }
        match find_key_stored(&self.storage, key.as_str()) {
            Some(j) => {
                let mut st = self.storage.remove(j);
                let ghost before = st.results@;
                st.results.push(duplicate_result(&out));
                let ghost ns = st;
                self.storage.insert(j, st);
                proof {
                    let s1 = self.storage@;
                    assert(s1 =~= s0.update(j as int, ns));
                    assert(storage_keys(s1) =~= storage_keys(s0));
                    assert(ns.results@.take(before.len() as int) =~= before);
                }
            },
            None => {},
        }
        proof {
            let t1 = self.trackers@;
            let s1 = self.storage@;
            assert forall|k: Seq<char>| k != kv implies #[trigger] tracker_for(t1, k) == tracker_for(t0, k)
                && results_for(s1, k) == results_for(s0, k) by {
                lemma_key_index(tracker_keys(t0), k);
                lemma_key_index(storage_keys(s0), k);
            }
        }
        Ok(out)
    }
}

} // verus!
