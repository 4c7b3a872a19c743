//! Intruder attack bookkeeping: validation of attack configurations, request
//! count estimates, agent selection checks, and attack templates.

use vstd::prelude::*;
use crate::engine::{AgentInfo, AgentStatus, AttackError, AttackMode, DistributionStrategy, PayloadConfig};
use crate::text::{
    all_digits, append_str, chars_contain_char, chars_of, digit_char, digit_value, digits_value, is_blank, is_prefix,
    join, join_strings, nat_text, owned, parse_unsigned, replace_all, replace_text, str_eq, texts, trims_empty,
    unsigned_digits, unsigned_parse, usize_text,
};

verus! {

/// A payload set of an attack and the template position it fills.
#[derive(Debug)]
pub struct PayloadSetConfig {
    pub id: String,
    pub name: String,
    pub payload_config: PayloadConfig,
    /// Which marked position of the template this set applies to.
    pub position_index: usize,
}

/// The parts of an attack configuration that validation reads.
#[derive(Debug)]
pub struct IntruderAttackConfig {
    pub name: String,
    /// Raw request with `§name§` markers.
    pub request_template: String,
    pub attack_mode: AttackMode,
    pub payload_sets: Vec<PayloadSetConfig>,
    pub target_agents: Vec<String>,
    pub distribution_strategy: DistributionStrategy,
}

/// What building, validating and counting one payload set's generator gave.
#[derive(Debug)]
pub enum PayloadSetCheck {
    /// The generator could not be built from the configuration.
    InvalidConfig(String),
    /// The generator rejected its configuration.
    ValidationFailed(String),
    /// Counting the payloads failed.
    CountFailed(String),
    /// The generator produces this many payloads.
    Counted(usize),
}

/// The verdict on an attack configuration.
#[derive(Debug)]
pub struct AttackValidationResult<P> {
    pub is_valid: bool,
    pub errors: Vec<String>,
    pub warnings: Vec<String>,
    pub payload_positions: Vec<P>,
    pub estimated_requests: Option<usize>,
}

/// A one-element list for `Some`, an empty one for `None`.
pub open spec fn opt_seq(o: Option<Seq<char>>) -> Seq<Seq<char>> {
    match o {
        Some(x) => seq![x],
        None => Seq::empty(),
    }
}

/// `Payload set '<name>'`.
pub open spec fn set_label(name: Seq<char>) -> Seq<char> {
    "Payload set '"@ + name + "'"@
}

/// The error a payload set's generator check gives, if any.
pub open spec fn check_error(name: Seq<char>, c: PayloadSetCheck) -> Option<Seq<char>> {
    match c {
        PayloadSetCheck::InvalidConfig(e) => Some("Invalid payload configuration for set '"@ + name + "': "@ + e@),
        PayloadSetCheck::ValidationFailed(e) => Some(set_label(name) + " validation failed: "@ + e@),
        PayloadSetCheck::CountFailed(e) => Some("Failed to count payloads for set '"@ + name + "': "@ + e@),
        PayloadSetCheck::Counted(_) => None,
    }
}

/// The warning a payload set's count gives, if any: none at all, or over 100 000.
pub open spec fn check_warning(name: Seq<char>, c: PayloadSetCheck) -> Option<Seq<char>> {
    match c {
        PayloadSetCheck::Counted(n) => if n == 0 {
            Some(set_label(name) + " contains no payloads"@)
        } else if n > 100_000 {
            Some(set_label(name) + " contains "@ + nat_text(n as nat) + " payloads (large set)"@)
        } else {
            None
        },
        _ => None,
    }
}

/// The error of a payload set whose position index is past the parsed positions.
pub open spec fn position_error(name: Seq<char>, index: nat, positions: nat) -> Option<Seq<char>> {
    if index >= positions {
        Some(set_label(name) + " position index "@ + nat_text(index) + " exceeds available positions ("@ + nat_text(positions)
            + ")"@)
    } else {
        None
    }
}

/// Errors of the first `k` payload sets, in order.
pub open spec fn set_errors(sets: Seq<PayloadSetConfig>, checks: Seq<PayloadSetCheck>, positions: nat, k: nat) -> Seq<Seq<char>>
    decreases k,
{
    if k == 0 {
        Seq::empty()
    } else {
        let s = sets[k - 1];
        set_errors(sets, checks, positions, (k - 1) as nat) + opt_seq(check_error(s.name@, checks[k - 1])) + opt_seq(
            position_error(s.name@, s.position_index as nat, positions),
        )
    }
}

/// Warnings of the first `k` payload sets, in order.
pub open spec fn set_warnings(sets: Seq<PayloadSetConfig>, checks: Seq<PayloadSetCheck>, k: nat) -> Seq<Seq<char>>
    decreases k,
{
    if k == 0 {
        Seq::empty()
    } else {
        set_warnings(sets, checks, (k - 1) as nat) + opt_seq(check_warning(sets[k - 1].name@, checks[k - 1]))
    }
}

/// The error of a template that did not parse, given the parser's message.
pub open spec fn parse_error<P>(parsed: Result<Vec<P>, String>) -> Option<Seq<char>> {
    match parsed {
        Ok(_) => None,
        Err(e) => Some("Invalid payload position syntax: "@ + e@),
    }
}

/// The number of positions the template parse gave (none when it failed).
pub open spec fn position_count<P>(parsed: Result<Vec<P>, String>) -> nat {
    match parsed {
        Ok(v) => v@.len(),
        Err(_) => 0,
    }
}

/// All validation errors of a configuration, in the order they are found.
pub open spec fn validation_errors<P>(
    cfg: IntruderAttackConfig,
    parsed: Result<Vec<P>, String>,
    checks: Seq<PayloadSetCheck>,
) -> Seq<Seq<char>> {
    let npos = position_count(parsed);
    let nsets = cfg.payload_sets@.len();
    opt_seq(if is_blank(cfg.name@) { Some("Attack name cannot be empty"@) } else { None }) + opt_seq(
        if is_blank(cfg.request_template@) { Some("Request template cannot be empty"@) } else { None },
    ) + opt_seq(parse_error(parsed)) + opt_seq(
        if npos != nsets {
            Some(
                "Mismatch between payload positions ("@ + nat_text(npos) + ") and payload sets ("@ + nat_text(nsets) + ")"@,
            )
        } else {
            None
        },
    ) + set_errors(cfg.payload_sets@, checks, npos, nsets) + opt_seq(
        if cfg.target_agents@.len() == 0 { Some("At least one target agent must be specified"@) } else { None },
    )
}

/// The payload counts of the checks, zero for a set that was not counted.
pub open spec fn counted(checks: Seq<PayloadSetCheck>) -> Seq<nat> {
    checks.map_values(|c: PayloadSetCheck| match c {
        PayloadSetCheck::Counted(n) => n as nat,
        _ => 0,
    })
}

/// Sum of the counts.
pub open spec fn count_sum(c: Seq<nat>) -> nat
    decreases c.len(),
{
    if c.len() == 0 { 0 } else { count_sum(c.drop_last()) + c.last() }
}

/// Largest count (zero for none).
pub open spec fn count_max(c: Seq<nat>) -> nat
    decreases c.len(),
{
    if c.len() == 0 {
        0
    } else {
        let m = count_max(c.drop_last());
        if c.last() > m { c.last() } else { m }
    }
}

/// Product of the counts (one for none).
pub open spec fn count_product(c: Seq<nat>) -> nat
    decreases c.len(),
{
    if c.len() == 0 { 1 } else { count_product(c.drop_last()) * c.last() }
}

/// Requests an attack sends: the sum of the set sizes for sniper, the largest
/// set for battering ram and pitchfork, every combination for cluster bomb.
pub open spec fn requests_for(mode: AttackMode, c: Seq<nat>) -> nat {
    match mode {
        AttackMode::Sniper => count_sum(c),
        AttackMode::BatteringRam => count_max(c),
        AttackMode::Pitchfork => count_max(c),
        AttackMode::ClusterBomb => count_product(c),
    }
}

/// The running totals of the mode stay within `usize` for every prefix.
pub open spec fn request_count_fits(mode: AttackMode, c: Seq<nat>) -> bool {
    forall|k: int| 0 <= k <= c.len() ==> #[trigger] requests_for(mode, c.take(k)) <= usize::MAX
}

/// The number of requests an attack with these set sizes sends.
pub fn estimate_request_count(mode: AttackMode, counts: &[usize]) -> (r: usize)
    requires
        request_count_fits(mode, counts@.map_values(|n: usize| n as nat)),
    ensures
        r == requests_for(mode, counts@.map_values(|n: usize| n as nat)),
{
    let ghost c = counts@.map_values(|n: usize| n as nat);
    let mut acc: usize = match mode {
        AttackMode::ClusterBomb => 1,
        _ => 0,
    };
    let mut i: usize = 0;
    proof {
        assert(c.take(0) =~= Seq::<nat>::empty());
    }
    while i < counts.len()
        invariant
            i <= counts@.len(),
            c == counts@.map_values(|n: usize| n as nat),
            request_count_fits(mode, c),
            acc == requests_for(mode, c.take(i as int)),
        decreases counts.len() - i,
    {
        proof {
            assert(c.take(i + 1).drop_last() =~= c.take(i as int));
            assert(requests_for(mode, c.take(i + 1)) <= usize::MAX);
        }
        let x = counts[i];
        acc = match mode {
            AttackMode::Sniper => acc + x,
            AttackMode::ClusterBomb => acc * x,
            _ => if x > acc { x } else { acc },
        };
        i = i + 1;
    }
    proof {
        assert(c.take(counts@.len() as int) =~= c);
    }
    acc
}

/// `a` followed by `b`.
fn cat2(a: &str, b: &str) -> (r: String)
    ensures
        r@ == a@ + b@,
{
    let mut s = owned(a);
    append_str(&mut s, b);
    s
}

/// `a`, `b` and `c` in a row.
fn cat3(a: &str, b: &str, c: &str) -> (r: String)
    ensures
        r@ == a@ + b@ + c@,
{
    let mut s = cat2(a, b);
    append_str(&mut s, c);
    s
}

fn check_error_text(name: &String, c: &PayloadSetCheck) -> (r: Option<String>)
    ensures
        match r {
            Some(t) => check_error(name@, *c) == Some(t@),
            None => check_error(name@, *c) is None,
        },
{
    match c {
        PayloadSetCheck::InvalidConfig(e) => {
            let mut s = cat3("Invalid payload configuration for set '", name.as_str(), "': ");
            append_str(&mut s, e.as_str());
            Some(s)
        },
        PayloadSetCheck::ValidationFailed(e) => {
            let mut s = cat3("Payload set '", name.as_str(), "'");
            append_str(&mut s, " validation failed: ");
            append_str(&mut s, e.as_str());
            Some(s)
        },
        PayloadSetCheck::CountFailed(e) => {
            let mut s = cat3("Failed to count payloads for set '", name.as_str(), "': ");
            append_str(&mut s, e.as_str());
            Some(s)
        },
        PayloadSetCheck::Counted(_) => None,
    }
}

fn check_warning_text(name: &String, c: &PayloadSetCheck) -> (r: Option<String>)
    ensures
        match r {
            Some(t) => check_warning(name@, *c) == Some(t@),
            None => check_warning(name@, *c) is None,
        },
{
    match c {
        PayloadSetCheck::Counted(n) => {
            if *n == 0 {
                let mut s = cat3("Payload set '", name.as_str(), "'");
                append_str(&mut s, " contains no payloads");
                Some(s)
            } else if *n > 100_000 {
                let mut s = cat3("Payload set '", name.as_str(), "'");
                append_str(&mut s, " contains ");
                let t = usize_text(*n);
                append_str(&mut s, t.as_str());
                append_str(&mut s, " payloads (large set)");
                Some(s)
            } else {
                None
            }
        },
        _ => None,
    }
}

fn position_error_text(name: &String, index: usize, positions: usize) -> (r: Option<String>)
    ensures
        match r {
            Some(t) => position_error(name@, index as nat, positions as nat) == Some(t@),
            None => position_error(name@, index as nat, positions as nat) is None,
        },
{
    if index >= positions {
        let mut s = cat3("Payload set '", name.as_str(), "'");
        append_str(&mut s, " position index ");
        let t = usize_text(index);
        append_str(&mut s, t.as_str());
        append_str(&mut s, " exceeds available positions (");
        let u = usize_text(positions);
        append_str(&mut s, u.as_str());
        append_str(&mut s, ")");
        Some(s)
    } else {
        None
    }
}

fn push_opt(v: &mut Vec<String>, o: Option<String>)
    ensures
        texts(final(v)@) == texts(old(v)@) + opt_seq(
            match o {
                Some(t) => Some(t@),
                None => None,
            },
        ),
{
    let ghost v0 = old(v)@;
    match o {
        Some(t) => {
            v.push(t);
            proof {
                assert(texts(v@) =~= texts(v0) + opt_seq(Some(t@)));
            }
        },
        None => {
            proof {
                assert(texts(v@) =~= texts(v0) + opt_seq(None));
            }
        },
    }
}

/// The warnings of a configuration: those of its payload sets, then one for an
/// estimate over 10 000 requests.
pub open spec fn validation_warnings(
    cfg: IntruderAttackConfig,
    checks: Seq<PayloadSetCheck>,
    estimate: Option<nat>,
) -> Seq<Seq<char>> {
    set_warnings(cfg.payload_sets@, checks, cfg.payload_sets@.len()) + opt_seq(
        match estimate {
            Some(n) => if n > 10_000 {
                Some("Attack will generate "@ + nat_text(n) + " requests (large attack)"@)
            } else {
                None
            },
            None => None,
        },
    )
}

/// The request estimate of a configuration: made only when it has payload sets
/// and no errors, from the counted set sizes.
pub open spec fn validation_estimate<P>(
    cfg: IntruderAttackConfig,
    parsed: Result<Vec<P>, String>,
    checks: Seq<PayloadSetCheck>,
) -> Option<nat> {
    if cfg.payload_sets@.len() > 0 && validation_errors(cfg, parsed, checks).len() == 0 {
        Some(requests_for(cfg.attack_mode, counted(checks)))
    } else {
        None
    }
}

/// Validation cannot overflow: the counted set sizes add up within `usize`, and
/// so does the request estimate at every step.
pub open spec fn validation_fits(cfg: IntruderAttackConfig, checks: Seq<PayloadSetCheck>) -> bool {
    &&& count_sum(counted(checks)) <= usize::MAX
    &&& request_count_fits(cfg.attack_mode, counted(checks))
}

proof fn lemma_no_errors_all_counted(sets: Seq<PayloadSetConfig>, checks: Seq<PayloadSetCheck>, positions: nat, k: nat)
    requires
        k <= sets.len(),
        k <= checks.len(),
        set_errors(sets, checks, positions, k).len() == 0,
    ensures
        forall|i: int| 0 <= i < k ==> (#[trigger] checks[i]) is Counted,
    decreases k,
{
    if k > 0 {
        lemma_no_errors_all_counted(sets, checks, positions, (k - 1) as nat);
        if !(checks[k - 1] is Counted) {
            assert(opt_seq(check_error(sets[k - 1].name@, checks[k - 1])).len() == 1);
        }
    }
}

/// Checks an attack configuration against the parsed template positions and
/// the checks of its payload sets' generators (one per set, in order), and
/// estimates its request count when it is valid.
pub fn validate_attack_config<P>(
    config: &IntruderAttackConfig,
    parsed: Result<Vec<P>, String>,
    checks: &Vec<PayloadSetCheck>,
) -> (r: AttackValidationResult<P>)
    requires
        checks@.len() == config.payload_sets@.len(),
        validation_fits(*config, checks@),
    ensures
        texts(r.errors@) == validation_errors(*config, parsed, checks@),
        r.is_valid == (validation_errors(*config, parsed, checks@).len() == 0),
        r.estimated_requests == (match validation_estimate(*config, parsed, checks@) {
            Some(n) => Some(n as usize),
            None => None,
        }),
        texts(r.warnings@) == validation_warnings(*config, checks@, validation_estimate(*config, parsed, checks@)),
        r.payload_positions@ == (match parsed {
            Ok(v) => v@,
            Err(_) => Seq::<P>::empty(),
        }),
{
    let ghost cfg = *config;
    let ghost parsed0 = parsed;
    let mut errors: Vec<String> = Vec::new();
    let mut warnings: Vec<String> = Vec::new();
    if trims_empty(config.name.as_str()) {
        errors.push(owned("Attack name cannot be empty"));
    }
    let ghost e1 = texts(errors@);
    proof {
        assert(e1 =~= opt_seq(if is_blank(cfg.name@) { Some("Attack name cannot be empty"@) } else { None }));
    }
    if trims_empty(config.request_template.as_str()) {
        errors.push(owned("Request template cannot be empty"));
    }
    let ghost e2 = texts(errors@);
    proof {
        assert(e2 =~= e1 + opt_seq(
            if is_blank(cfg.request_template@) { Some("Request template cannot be empty"@) } else { None },
        ));
    }
    let positions: Vec<P> = match parsed {
        Ok(v) => v,
        Err(e) => {
            let m = cat2("Invalid payload position syntax: ", e.as_str());
            errors.push(m);
            Vec::new()
        },
    };
    let ghost e3 = texts(errors@);
    proof {
        assert(e3 =~= e2 + opt_seq(parse_error(parsed0)));
    }
    let npos = positions.len();
    let nsets = config.payload_sets.len();
    if npos != nsets {
        let mut m = owned("Mismatch between payload positions (");
        let t = usize_text(npos);
        append_str(&mut m, t.as_str());
        append_str(&mut m, ") and payload sets (");
        let u = usize_text(nsets);
        append_str(&mut m, u.as_str());
        append_str(&mut m, ")");
        errors.push(m);
    }
    let ghost e4 = texts(errors@);
    proof {
        assert(npos == position_count(parsed0));
        assert(e4 =~= e3 + opt_seq(
            if npos != nsets {
                Some("Mismatch between payload positions ("@ + nat_text(npos as nat) + ") and payload sets ("@ + nat_text(nsets as nat) + ")"@)
            } else {
                None
            },
        ));
    }
    let mut total_payloads: usize = 0;
    let mut k: usize = 0;
    while k < nsets
        invariant
            k <= nsets,
            nsets == config.payload_sets@.len(),
            checks@.len() == nsets,
            validation_fits(cfg, checks@),
            cfg == *config,
            npos == position_count(parsed0),
            texts(errors@) == e4 + set_errors(config.payload_sets@, checks@, npos as nat, k as nat),
            texts(warnings@) == set_warnings(config.payload_sets@, checks@, k as nat),
            total_payloads == count_sum(counted(checks@).take(k as int)),
        decreases nsets - k,
    {
        let set = &config.payload_sets[k];
        let c = &checks[k];
        proof {
            assert(counted(checks@).take(k + 1).drop_last() =~= counted(checks@).take(k as int));
            lemma_count_sum_prefix(counted(checks@), k + 1);
        }
        match c {
            PayloadSetCheck::Counted(n) => {
                total_payloads = total_payloads + *n;
            },
            _ => {},
        }
        let ghost ek = texts(errors@);
        push_opt(&mut errors, check_error_text(&set.name, c));
        push_opt(&mut errors, position_error_text(&set.name, set.position_index, npos));
        push_opt(&mut warnings, check_warning_text(&set.name, c));
        proof {
            assert(texts(errors@) =~= e4 + set_errors(config.payload_sets@, checks@, npos as nat, (k + 1) as nat));
        }
        k = k + 1;
    }
    if config.target_agents.len() == 0 {
        errors.push(owned("At least one target agent must be specified"));
    }
    proof {
        assert(texts(errors@) =~= validation_errors(cfg, parsed0, checks@));
    }
    let estimated: Option<usize> = if nsets > 0 && errors.len() == 0 {
        proof {
            lemma_no_errors_all_counted(config.payload_sets@, checks@, npos as nat, nsets as nat);
        }
        let mut counts: Vec<usize> = Vec::new();
        let mut j: usize = 0;
        while j < nsets
            invariant
                j <= nsets,
                checks@.len() == nsets,
                forall|i: int| 0 <= i < nsets ==> (#[trigger] checks@[i]) is Counted,
                counts@.map_values(|n: usize| n as nat) == counted(checks@).take(j as int),
            decreases nsets - j,
        {
            let ghost c0 = counts@;
            let cj = &checks[j];
            match cj {
                PayloadSetCheck::Counted(n) => {
                    counts.push(*n);
                    proof {
                        assert(counted(checks@)[j as int] == *n as nat);
                        assert(counts@ == c0.push(*n));
                        assert(counts@.map_values(|n: usize| n as nat) =~= c0.map_values(|n: usize| n as nat).push(*n as nat));
                        assert(counted(checks@).take(j + 1) =~= counted(checks@).take(j as int).push(counted(checks@)[j as int]));
                    }
                },
                _ => {
                    proof {
                        assert(checks@[j as int] is Counted);
                    }
                },
            }
            proof {
                assert(counts@.map_values(|n: usize| n as nat) =~= counted(checks@).take(j + 1));
            }
            j = j + 1;
        }
        proof {
            assert(counted(checks@).take(nsets as int) =~= counted(checks@));
        }
        Some(estimate_request_count(config.attack_mode, counts.as_slice()))
    } else {
        None
    };
    match estimated {
        Some(n) => {
            if n > 10_000 {
                let mut m = owned("Attack will generate ");
                let t = usize_text(n);
                append_str(&mut m, t.as_str());
                append_str(&mut m, " requests (large attack)");
                warnings.push(m);
            }
        },
        None => {},
    }
    proof {
        assert(texts(warnings@) =~= validation_warnings(cfg, checks@, validation_estimate(cfg, parsed0, checks@)));
    }
    AttackValidationResult {
        is_valid: errors.len() == 0,
        errors,
        warnings,
        payload_positions: positions,
        estimated_requests: estimated,
    }
}

proof fn lemma_count_sum_prefix(c: Seq<nat>, k: int)
    requires
        0 <= k <= c.len(),
    ensures
        count_sum(c.take(k)) <= count_sum(c),
    decreases c.len() - k,
{
    if k < c.len() {
        lemma_count_sum_prefix(c, k + 1);
        assert(c.take(k + 1).drop_last() =~= c.take(k));
    } else {
        assert(c.take(k) =~= c);
    }
}

/// Position of the last agent with the given id, or -1 (a later record of the
/// same id replaces an earlier one).
pub open spec fn last_agent_index(agents: Seq<AgentInfo>, id: Seq<char>) -> int
    decreases agents.len(),
{
    if agents.len() == 0 {
        -1
    } else if agents.last().id@ == id {
        agents.len() - 1
    } else {
        last_agent_index(agents.drop_last(), id)
    }
}

proof fn lemma_last_agent_index(agents: Seq<AgentInfo>, id: Seq<char>)
    ensures
        -1 <= last_agent_index(agents, id) < agents.len(),
        last_agent_index(agents, id) >= 0 ==> agents[last_agent_index(agents, id)].id@ == id,
        forall|t: int| last_agent_index(agents, id) < t < agents.len() ==> agents[t].id@ != id,
    decreases agents.len(),
{
    if agents.len() > 0 {
        lemma_last_agent_index(agents.drop_last(), id);
        assert forall|t: int| 0 <= t < agents.len() - 1 implies agents[t] == agents.drop_last()[t] by {}
    }
}

/// The problem with selecting agent `id`, if any: unknown, or not online.
pub open spec fn selection_error(id: Seq<char>, agents: Seq<AgentInfo>) -> Option<Seq<char>> {
    let k = last_agent_index(agents, id);
    if k < 0 {
        Some("Agent '"@ + id + "' not found"@)
    } else if agents[k].status != AgentStatus::Online {
        Some("Agent '"@ + id + "' is not online (status: Offline)"@)
    } else {
        None
    }
}

/// The selection problems of the first `k` requested agents, in order.
pub open spec fn selection_errors(ids: Seq<String>, agents: Seq<AgentInfo>, k: nat) -> Seq<Seq<char>>
    decreases k,
{
    if k == 0 {
        Seq::empty()
    } else {
        selection_errors(ids, agents, (k - 1) as nat) + opt_seq(selection_error(ids[k - 1]@, agents))
    }
}

fn find_last_agent(agents: &[AgentInfo], id: &str) -> (k: Option<usize>)
    ensures
        match k {
            Some(i) => i == last_agent_index(agents@, id@) && i < agents@.len(),
            None => last_agent_index(agents@, id@) < 0,
        },
{
    proof {
        lemma_last_agent_index(agents@, id@);
    }
    let mut i: usize = agents.len();
    while i > 0
        invariant
            i <= agents@.len(),
            forall|t: int| i <= t < agents@.len() ==> agents@[t].id@ != id@,
            -1 <= last_agent_index(agents@, id@) < agents@.len(),
            last_agent_index(agents@, id@) >= 0 ==> agents@[last_agent_index(agents@, id@)].id@ == id@,
            forall|t: int| last_agent_index(agents@, id@) < t < agents@.len() ==> agents@[t].id@ != id@,
        decreases i,
    {
        i = i - 1;
        if str_eq(agents[i].id.as_str(), id) {
            return Some(i);
        }
    }
    None
}

/// Checks that every requested agent exists and is online; the problems found
/// are reported together in one error.
pub fn validate_agent_selection(agent_ids: &Vec<String>, available_agents: &[AgentInfo]) -> (r: Result<
    Vec<String>,
    AttackError,
>)
    ensures
        ({
            let errs = selection_errors(agent_ids@, available_agents@, agent_ids@.len());
            &&& errs.len() == 0 ==> (r matches Ok(v) && v@.len() == 0)
            &&& errs.len() > 0 ==> (r matches Err(AttackError::AgentUnavailable { agent_id })
                && agent_id@ == "Multiple agents: "@ + join(errs, ", "@))
        }),
{
    let mut errors: Vec<String> = Vec::new();
    let mut k: usize = 0;
    while k < agent_ids.len()
        invariant
            k <= agent_ids@.len(),
            texts(errors@) == selection_errors(agent_ids@, available_agents@, k as nat),
        decreases agent_ids.len() - k,
    {
        let id = agent_ids[k].as_str();
        let e: Option<String> = match find_last_agent(available_agents, id) {
            None => Some(cat3("Agent '", id, "' not found")),
            Some(i) => {
                if available_agents[i].status != AgentStatus::Online {
                    Some(cat3("Agent '", id, "' is not online (status: Offline)"))
                } else {
                    None
                }
            },
        };
        push_opt(&mut errors, e);
        k = k + 1;
    }
    if errors.len() == 0 {
        Ok(Vec::new())
    } else {
        let joined = join_strings(&errors, ", ");
        Err(AttackError::AgentUnavailable { agent_id: cat2("Multiple agents: ", joined.as_str()) })
    }
}

/// The marker for template position `k` (counting from one): `§payload<k>§`.
pub open spec fn payload_marker(k: nat) -> Seq<char> {
    "§payload"@ + nat_text(k) + "§"@
}

/// The request after marking the first `k` values: each non-empty value is
/// replaced everywhere by its position's marker.
pub open spec fn template_upto(data: Seq<char>, values: Seq<String>, k: nat) -> Seq<char>
    decreases k,
{
    if k == 0 {
        data
    } else {
        let t = template_upto(data, values, (k - 1) as nat);
        if values[k - 1]@.len() > 0 {
            replace_all(t, values[k - 1]@, payload_marker(k))
        } else {
            t
        }
    }
}

/// Marks the given values of a request as payload positions. Fails when no
/// marker character ends up in the template.
pub fn create_attack_template(request_data: &str, payload_positions: &Vec<String>) -> (r: Result<String, AttackError>)
    ensures
        ({
            let t = template_upto(request_data@, payload_positions@, payload_positions@.len());
            &&& t.contains('§') ==> (r matches Ok(s) && s@ == t)
            &&& !t.contains('§') ==> (r matches Err(AttackError::InvalidPayloadConfig { reason })
                && reason@ == "No payload positions were marked in the template"@)
        }),
{
    let mut template = owned(request_data);
    let mut k: usize = 0;
    while k < payload_positions.len()
        invariant
            k <= payload_positions@.len(),
            template@ == template_upto(request_data@, payload_positions@, k as nat),
        decreases payload_positions.len() - k,
    {
        let value = payload_positions[k].as_str();
        if !value.is_empty() {
            let n = usize_text(k + 1);
            let marker = cat3("§payload", n.as_str(), "§");
            template = replace_text(template.as_str(), value, marker.as_str());
        }
        k = k + 1;
    }
    let cs = chars_of(template.as_str());
    if !chars_contain_char(cs.as_slice(), '§') {
        return Err(AttackError::InvalidPayloadConfig { reason: owned("No payload positions were marked in the template") });
    }
    Ok(template)
}

/// The stored name of an attack mode.
pub open spec fn mode_name(m: AttackMode) -> Seq<char> {
    match m {
        AttackMode::Sniper => "sniper"@,
        AttackMode::BatteringRam => "battering_ram"@,
        AttackMode::Pitchfork => "pitchfork"@,
        AttackMode::ClusterBomb => "cluster_bomb"@,
    }
}

/// The attack mode a stored name stands for, if any.
pub open spec fn mode_of_name(s: Seq<char>) -> Option<AttackMode> {
    if s == "sniper"@ {
        Some(AttackMode::Sniper)
    } else if s == "battering_ram"@ {
        Some(AttackMode::BatteringRam)
    } else if s == "pitchfork"@ {
        Some(AttackMode::Pitchfork)
    } else if s == "cluster_bomb"@ {
        Some(AttackMode::ClusterBomb)
    } else {
        None
    }
}

/// The stored name of an attack mode.
pub fn attack_mode_name(m: AttackMode) -> (r: String)
    ensures
        r@ == mode_name(m),
{
    match m {
        AttackMode::Sniper => owned("sniper"),
        AttackMode::BatteringRam => owned("battering_ram"),
        AttackMode::Pitchfork => owned("pitchfork"),
        AttackMode::ClusterBomb => owned("cluster_bomb"),
    }
}

/// Reads a stored attack mode; an unknown name is refused.
pub fn parse_attack_mode(s: &str) -> (r: Result<AttackMode, AttackError>)
    ensures
        match mode_of_name(s@) {
            Some(m) => r == Ok::<AttackMode, AttackError>(m),
            None => r matches Err(AttackError::InvalidPayloadConfig { reason }) && reason@ == "Unknown attack mode: "@ + s@,
        },
{
    if str_eq(s, "sniper") {
        Ok(AttackMode::Sniper)
    } else if str_eq(s, "battering_ram") {
        Ok(AttackMode::BatteringRam)
    } else if str_eq(s, "pitchfork") {
        Ok(AttackMode::Pitchfork)
    } else if str_eq(s, "cluster_bomb") {
        Ok(AttackMode::ClusterBomb)
    } else {
        Err(AttackError::InvalidPayloadConfig { reason: cat2("Unknown attack mode: ", s) })
    }
}

/// The stored text of a distribution strategy.
pub open spec fn strategy_text(st: DistributionStrategy) -> Seq<char> {
    match st {
        DistributionStrategy::RoundRobin => "round_robin"@,
        DistributionStrategy::Batch { batch_size } => "batch:"@ + nat_text(batch_size as nat),
        DistributionStrategy::LoadBalanced => "load_balanced"@,
    }
}

/// The strategy a stored text stands for: `batch:<n>` (a batch size of 100 when
/// `<n>` does not parse), `load_balanced`, and round-robin for anything else.
pub open spec fn strategy_of_text(s: Seq<char>) -> DistributionStrategy {
    if is_prefix("batch:"@, s) {
        DistributionStrategy::Batch {
            batch_size: match unsigned_parse(s.subrange(6, s.len() as int), usize::MAX as nat) {
                Some(n) => n as usize,
                None => 100,
            },
        }
    } else if s == "load_balanced"@ {
        DistributionStrategy::LoadBalanced
    } else {
        DistributionStrategy::RoundRobin
    }
}

/// The stored text of a distribution strategy.
pub fn distribution_strategy_name(st: DistributionStrategy) -> (r: String)
    ensures
        r@ == strategy_text(st),
{
    match st {
        DistributionStrategy::RoundRobin => owned("round_robin"),
        DistributionStrategy::Batch { batch_size } => {
            let n = usize_text(batch_size);
            cat2("batch:", n.as_str())
        },
        DistributionStrategy::LoadBalanced => owned("load_balanced"),
    }
}

/// Reads a stored distribution strategy.
pub fn parse_distribution_strategy(s: &str) -> (r: DistributionStrategy)
    ensures
        r == strategy_of_text(s@),
{
    proof {
        reveal_strlit("batch:");
    }
    let v = chars_of(s);
    let p = chars_of("batch:");
    if crate::text::chars_has_prefix(v.as_slice(), p.as_slice()) {
        let rest = crate::text::string_of(crate::text::chars_slice(v.as_slice(), 6, v.len()).as_slice());
        let n = match parse_unsigned(rest.as_str(), usize::MAX as u64) {
            Some(n) => n as usize,
            None => 100,
        };
        DistributionStrategy::Batch { batch_size: n }
    } else if str_eq(s, "load_balanced") {
        DistributionStrategy::LoadBalanced
    } else {
        DistributionStrategy::RoundRobin
    }
}

proof fn lemma_digit_char(d: nat)
    requires
        d < 10,
    ensures
        digit_value(digit_char(d)) == d,
        '0' <= digit_char(d) && digit_char(d) <= '9',
{
}

proof fn lemma_nat_text_parses(n: nat)
    ensures
        nat_text(n).len() > 0,
        all_digits(nat_text(n)),
        digits_value(nat_text(n)) == n,
        nat_text(n)[0] != '+',
    decreases n,
{
    if n < 10 {
        lemma_digit_char(n);
        let t = nat_text(n);
        assert(t.drop_last() =~= Seq::<char>::empty());
        assert(t.last() == digit_char(n));
        assert(digits_value(t) == digits_value(t.drop_last()) * 10 + digit_value(t.last()));
    } else {
        lemma_nat_text_parses(n / 10);
        assert((n / 10) * 10 + n % 10 == n);
        lemma_digit_char(n % 10);
        let t = nat_text(n);
        assert(t.drop_last() =~= nat_text(n / 10));
        assert forall|i: int| 0 <= i < t.len() implies crate::text::is_digit(#[trigger] t[i]) by {
            if i < t.len() - 1 {
                assert(t[i] == nat_text(n / 10)[i]);
            }
        }
        assert(t[0] == nat_text(n / 10)[0]);
        assert(t.last() == digit_char(n % 10));
        assert(digits_value(t) == digits_value(t.drop_last()) * 10 + digit_value(t.last()));
    }
}

/// Writing an attack mode down and reading it back gives the same mode.
pub proof fn law_attack_mode_round_trip(m: AttackMode)
    ensures
        mode_of_name(mode_name(m)) == Some(m),
{
    reveal_strlit("sniper");
    reveal_strlit("battering_ram");
    reveal_strlit("pitchfork");
    reveal_strlit("cluster_bomb");
    assert("sniper"@.len() == 6);
    assert("battering_ram"@.len() == 13);
    assert("pitchfork"@.len() == 9);
    assert("cluster_bomb"@.len() == 12);
}

/// Writing a distribution strategy down and reading it back gives the same
/// strategy.
pub proof fn law_strategy_round_trip(st: DistributionStrategy)
    ensures
        strategy_of_text(strategy_text(st)) == st,
{
    reveal_strlit("batch:");
    reveal_strlit("round_robin");
    reveal_strlit("load_balanced");
    match st {
        DistributionStrategy::Batch { batch_size } => {
            let t = strategy_text(st);
            lemma_nat_text_parses(batch_size as nat);
            assert(t.subrange(0, 6) =~= "batch:"@);
            assert(t.subrange(6, t.len() as int) =~= nat_text(batch_size as nat));
            assert(unsigned_digits(nat_text(batch_size as nat)) == nat_text(batch_size as nat));
        },
        DistributionStrategy::RoundRobin => {
            assert(!is_prefix("batch:"@, "round_robin"@)) by {
                assert("round_robin"@.subrange(0, 6)[0] == 'r');
            }
        },
        DistributionStrategy::LoadBalanced => {
            assert(!is_prefix("batch:"@, "load_balanced"@)) by {
                assert("load_balanced"@.subrange(0, 6)[0] == 'l');
            }
        },
    }
}

/// Refuses to create an attack whose configuration did not validate.
pub fn check_attack_creation<P>(validation: &AttackValidationResult<P>) -> (r: Result<(), AttackError>)
    ensures
        validation.is_valid ==> r is Ok,
        !validation.is_valid ==> (r matches Err(AttackError::InvalidPayloadConfig { reason })
            && reason@ == "Attack validation failed: "@ + join(texts(validation.errors@), ", "@)),
{
    if validation.is_valid {
        Ok(())
    } else {
        let joined = join_strings(&validation.errors, ", ");
        Err(AttackError::InvalidPayloadConfig { reason: cat2("Attack validation failed: ", joined.as_str()) })
    }
}

proof fn lemma_count_max(c: Seq<nat>)
    ensures
        forall|i: int| 0 <= i < c.len() ==> #[trigger] c[i] <= count_max(c),
        c.len() == 0 ==> count_max(c) == 0,
        c.len() > 0 ==> exists|i: int| 0 <= i < c.len() && #[trigger] c[i] == count_max(c),
    decreases c.len(),
{
    if c.len() > 0 {
        let d = c.drop_last();
        lemma_count_max(d);
        assert forall|i: int| 0 <= i < c.len() implies #[trigger] c[i] <= count_max(c) by {
            if i < d.len() {
                assert(d[i] == c[i]);
            }
        }
        if c.last() <= count_max(d) && d.len() > 0 {
            let j = choose|j: int| 0 <= j < d.len() && #[trigger] d[j] == count_max(d);
            assert(c[j] == count_max(c));
        } else {
            assert(c[c.len() - 1] == count_max(c));
        }
    }
}

/// Battering ram and pitchfork send as many requests as the largest payload
/// set: the estimate is at least every set's size and is the size of one of
/// the sets (zero when there is none).
pub proof fn law_largest_set_modes(c: Seq<nat>)
    ensures
        forall|i: int| 0 <= i < c.len() ==> #[trigger] c[i] <= requests_for(AttackMode::Pitchfork, c),
        forall|i: int| 0 <= i < c.len() ==> #[trigger] c[i] <= requests_for(AttackMode::BatteringRam, c),
        c.len() == 0 ==> requests_for(AttackMode::Pitchfork, c) == 0 && requests_for(AttackMode::BatteringRam, c) == 0,
        c.len() > 0 ==> exists|i: int| 0 <= i < c.len() && #[trigger] c[i] == requests_for(AttackMode::Pitchfork, c),
        c.len() > 0 ==> exists|i: int| 0 <= i < c.len() && #[trigger] c[i] == requests_for(AttackMode::BatteringRam, c),
{
    lemma_count_max(c);
}

/// Sniper sends one request per payload of each set in turn: no sets give no
/// requests, and one more set adds its size. Cluster bomb sends every
/// combination: no sets give one (empty) combination, and one more set
/// multiplies the count by its size.
pub proof fn law_sum_and_product_modes(c: Seq<nat>, x: nat)
    ensures
        requests_for(AttackMode::Sniper, Seq::empty()) == 0,
        requests_for(AttackMode::Sniper, c.push(x)) == requests_for(AttackMode::Sniper, c) + x,
        requests_for(AttackMode::ClusterBomb, Seq::empty()) == 1,
        requests_for(AttackMode::ClusterBomb, c.push(x)) == requests_for(AttackMode::ClusterBomb, c) * x,
{
    assert(c.push(x).drop_last() =~= c);
}

} // verus!
