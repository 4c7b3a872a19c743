//! Result streaming: highlight rules and their evaluation on results, result
//! sources, and the text exports of results.

pub mod streams;

use vstd::prelude::*;
use crate::engine::{HttpHeaders, HttpResponseData};
use crate::scope::{regex_match, regex_outcome};
use crate::text::{
    append_str, bool_string, bool_text, chars_contain, chars_of, contains_text, i64_text, int_text, join, join_strings,
    lowercase_text, nat_text, owned, str_eq, texts, to_lowercase, u64_text, usize_text,
};

verus! {

/// Where results come from.
#[derive(Debug)]
pub enum ResultSource {
    Repeater { tab_id: String },
    Intruder { attack_id: String },
}

/// The key under which a source's results are kept: `repeater:<tab>` or
/// `intruder:<attack>`.
pub open spec fn source_key(s: ResultSource) -> Seq<char> {
    match s {
        ResultSource::Repeater { tab_id } => "repeater:"@ + tab_id@,
        ResultSource::Intruder { attack_id } => "intruder:"@ + attack_id@,
    }
}

/// The key under which a source's results are kept.
pub fn get_source_id(source: &ResultSource) -> (r: String)
    ensures
        r@ == source_key(*source),
{
    match source {
        ResultSource::Repeater { tab_id } => {
            let mut s = owned("repeater:");
            append_str(&mut s, tab_id.as_str());
            s
        },
        ResultSource::Intruder { attack_id } => {
            let mut s = owned("intruder:");
            append_str(&mut s, attack_id.as_str());
            s
        },
    }
}

/// Which highlight rule matched and why.
#[derive(Debug)]
pub struct HighlightRuleMatch {
    pub rule_name: String,
    pub rule_priority: u8,
    pub match_reason: String,
}

/// An error of an attack as reported to listeners.
#[derive(Debug)]
pub struct AttackErrorInfo {
    pub error_type: String,
    pub message: String,
    pub affected_agents: Vec<String>,
    pub is_recoverable: bool,
    pub suggested_actions: Vec<String>,
}

/// Formats results can be exported in.
#[derive(Clone, Copy, Debug, PartialEq, Eq, Structural)]
pub enum ExportFormat {
    Json,
    Csv,
    Xml,
    Html,
}

/// Logical operators for combining highlight conditions.
#[derive(Clone, Copy, Debug, PartialEq, Eq, Structural)]
pub enum LogicalOperator {
    And,
    Or,
    Not,
}

/// Conditions under which a result is highlighted.
#[derive(Debug)]
pub enum HighlightCondition {
    StatusCode(Vec<i32>),
    StatusCodeRange { min: i32, max: i32 },
    ResponseLength { min: Option<usize>, max: Option<usize> },
    ResponseTime { min_ms: Option<u64>, max_ms: Option<u64> },
    ResponseContains { text: String, case_sensitive: bool },
    ResponseRegex(String),
    HeaderExists(String),
    HeaderValue { name: String, value: String, case_sensitive: bool },
    Combined { operator: LogicalOperator, conditions: Vec<HighlightCondition> },
}

/// A named highlight rule.
#[derive(Debug)]
pub struct HighlightRule {
    pub id: String,
    pub name: String,
    pub description: String,
    pub condition: HighlightCondition,
    /// 1-10, higher is more important.
    pub priority: u8,
    pub enabled: bool,
    /// Hex color for display.
    pub color: Option<String>,
}

/// The highlight rules in force.
#[derive(Debug)]
pub struct HighlightingConfig {
    pub rules: Vec<HighlightRule>,
    pub max_highlighted_results: usize,
    pub auto_highlight_enabled: bool,
}

/// A result as it is streamed to listeners; times are milliseconds since the epoch.
#[derive(Debug)]
pub struct StreamedResult {
    pub result_id: String,
    pub agent_id: String,
    pub status_code: Option<i32>,
    pub response_length: Option<usize>,
    pub duration_ms: Option<u64>,
    pub executed_at: i64,
    pub payload_values: Option<Vec<String>>,
    pub is_highlighted: bool,
    pub highlight_reasons: Vec<String>,
}

/// The text `String::from_utf8_lossy` makes of some bytes (invalid sequences
/// become U+FFFD).
pub uninterp spec fn lossy_text(bytes: Seq<u8>) -> Seq<char>;

/// `String::from_utf8_lossy`: the result is named by `lossy_text`; bytes that
/// are valid UTF-8 give the text they encode.
#[verifier::external_body]
pub fn utf8_lossy(bytes: &[u8]) -> (r: String)
    ensures
        r@ == lossy_text(bytes@),
        vstd::utf8::valid_utf8(bytes@) ==> r@ == vstd::utf8::decode_utf8(bytes@),
{
    String::from_utf8_lossy(bytes).into_owned()
}

/// The value of the first header with the given name, if any.
pub open spec fn header_value(h: Option<HttpHeaders>, name: Seq<char>) -> Option<Seq<char>> {
    match h {
        Some(hs) => first_header(hs.headers@, name),
        None => None,
    }
}

/// The value of the first pair with the given name.
pub open spec fn first_header(p: Seq<(String, String)>, name: Seq<char>) -> Option<Seq<char>>
    decreases p.len(),
{
    if p.len() == 0 {
        None
    } else if p[0].0@ == name {
        Some(p[0].1@)
    } else {
        first_header(p.drop_first(), name)
    }
}

/// The condition holds for the result and its response.
pub open spec fn condition_holds(c: HighlightCondition, r: StreamedResult, resp: HttpResponseData) -> bool
    decreases c,
{
    match c {
        HighlightCondition::StatusCode(codes) => r.status_code matches Some(code) && codes@.contains(code),
        HighlightCondition::StatusCodeRange { min, max } => r.status_code matches Some(code) && min <= code && code <= max,
        HighlightCondition::ResponseLength { min, max } => {
            let len = resp.body@.len();
            (min matches Some(m) ==> len >= m) && (max matches Some(m) ==> len <= m)
        },
        HighlightCondition::ResponseTime { min_ms, max_ms } => r.duration_ms matches Some(d) && (min_ms matches Some(m)
            ==> d >= m) && (max_ms matches Some(m) ==> d <= m),
        HighlightCondition::ResponseContains { text, case_sensitive } => {
            let body = lossy_text(resp.body@);
            if case_sensitive {
                contains_text(body, text@)
            } else {
                contains_text(lowercase_text(body), lowercase_text(text@))
            }
        },
        HighlightCondition::ResponseRegex(pattern) => regex_outcome(pattern@, lossy_text(resp.body@)) == Some(true),
        HighlightCondition::HeaderExists(name) => header_value(resp.headers, name@) is Some,
        HighlightCondition::HeaderValue { name, value, case_sensitive } => match header_value(resp.headers, name@) {
            Some(v) => if case_sensitive {
                v == value@
            } else {
                lowercase_text(v) == lowercase_text(value@)
            },
            None => false,
        },
        HighlightCondition::Combined { operator, conditions } => match operator {
            LogicalOperator::And => all_hold(conditions@, r, resp),
            LogicalOperator::Or => any_holds(conditions@, r, resp),
            LogicalOperator::Not => !any_holds(conditions@, r, resp),
        },
    }
}

/// Every condition holds.
pub open spec fn all_hold(cs: Seq<HighlightCondition>, r: StreamedResult, resp: HttpResponseData) -> bool
    decreases cs,
{
    if cs.len() == 0 {
        true
    } else {
        condition_holds(cs[0], r, resp) && all_hold(cs.drop_first(), r, resp)
    }
}

/// Some condition holds.
pub open spec fn any_holds(cs: Seq<HighlightCondition>, r: StreamedResult, resp: HttpResponseData) -> bool
    decreases cs,
{
    if cs.len() == 0 {
        false
    } else {
        condition_holds(cs[0], r, resp) || any_holds(cs.drop_first(), r, resp)
    }
}

proof fn lemma_all_any(cs: Seq<HighlightCondition>, r: StreamedResult, resp: HttpResponseData)
    ensures
        all_hold(cs, r, resp) <==> forall|k: int| 0 <= k < cs.len() ==> condition_holds(#[trigger] cs[k], r, resp),
        any_holds(cs, r, resp) <==> exists|k: int| 0 <= k < cs.len() && condition_holds(#[trigger] cs[k], r, resp),
    decreases cs.len(),
{
    if cs.len() > 0 {
        lemma_all_any(cs.drop_first(), r, resp);
        assert forall|k: int| 0 < k < cs.len() implies cs[k] == cs.drop_first()[k - 1] by {}
        if any_holds(cs, r, resp) && !condition_holds(cs[0], r, resp) {
            let k = choose|k: int| 0 <= k < cs.drop_first().len() && condition_holds(#[trigger] cs.drop_first()[k], r, resp);
            assert(condition_holds(cs[k + 1], r, resp));
        }
        if all_hold(cs, r, resp) {
            assert forall|k: int| 0 <= k < cs.len() implies condition_holds(#[trigger] cs[k], r, resp) by {
                if k > 0 {
                    assert(cs[k] == cs.drop_first()[k - 1]);
                }
            }
        }
        if forall|k: int| 0 <= k < cs.len() ==> condition_holds(#[trigger] cs[k], r, resp) {
            assert forall|k: int| 0 <= k < cs.drop_first().len() implies condition_holds(#[trigger] cs.drop_first()[k], r, resp) by {
                assert(cs.drop_first()[k] == cs[k + 1]);
            }
        }
    }
}

fn find_header(h: &Option<HttpHeaders>, name: &str) -> (r: Option<String>)
    ensures
        match r {
            Some(v) => header_value(*h, name@) == Some(v@),
            None => header_value(*h, name@) is None,
        },
{
    match h {
        Some(hs) => {
            let p = &hs.headers;
            let mut i: usize = 0;
            proof {
                assert(p@.skip(0) =~= p@);
            }
            while i < p.len()
                invariant
                    i <= p@.len(),
                    header_value(*h, name@) == first_header(p@, name@),
                    first_header(p@, name@) == first_header(p@.skip(i as int), name@),
                decreases p.len() - i,
            {
                proof {
                    assert(p@.skip(i as int).drop_first() =~= p@.skip(i + 1));
                }
                if str_eq(p[i].0.as_str(), name) {
                    proof {
                        assert(p@.skip(i as int)[0] == p@[i as int]);
                    }
                    return Some(p[i].1.clone());
                }
                proof {
                    assert(p@.skip(i as int)[0] == p@[i as int]);
                }
                i = i + 1;
            }
            proof {
                assert(p@.skip(i as int) =~= Seq::<(String, String)>::empty());
            }
            None
        },
        None => None,
    }
}

/// Evaluates a highlight condition on a result and its response.
pub fn evaluate_highlight_condition(c: &HighlightCondition, r: &StreamedResult, resp: &HttpResponseData) -> (b: bool)
    ensures
        b == condition_holds(*c, *r, *resp),
    decreases c,
{
    match c {
        HighlightCondition::StatusCode(codes) => {
            match r.status_code {
                Some(code) => {
                    let mut i: usize = 0;
                    while i < codes.len()
                        invariant
                            i <= codes@.len(),
                            forall|k: int| 0 <= k < i ==> codes@[k] != code,
                            condition_holds(*c, *r, *resp) == codes@.contains(code),
                        decreases codes.len() - i,
                    {
                        if codes[i] == code {
                            proof {
                                assert(codes@[i as int] == code);
                            }
                            return true;
                        }
                        i = i + 1;
                    }
                    false
                },
                None => false,
            }
        },
        HighlightCondition::StatusCodeRange { min, max } => match r.status_code {
            Some(code) => code >= *min && code <= *max,
            None => false,
        },
        HighlightCondition::ResponseLength { min, max } => {
            let len = resp.body.len();
            let min_ok = match min {
                Some(m) => len >= *m,
                None => true,
            };
            let max_ok = match max {
                Some(m) => len <= *m,
                None => true,
            };
            min_ok && max_ok
        },
        HighlightCondition::ResponseTime { min_ms, max_ms } => match r.duration_ms {
            Some(d) => {
                let min_ok = match min_ms {
                    Some(m) => d >= *m,
                    None => true,
                };
                let max_ok = match max_ms {
                    Some(m) => d <= *m,
                    None => true,
                };
                min_ok && max_ok
            },
            None => false,
        },
        HighlightCondition::ResponseContains { text, case_sensitive } => {
            let body = utf8_lossy(resp.body.as_slice());
            if *case_sensitive {
                chars_contain(chars_of(body.as_str()).as_slice(), chars_of(text.as_str()).as_slice())
            } else {
                let lb = to_lowercase(body.as_str());
                let lt = to_lowercase(text.as_str());
                chars_contain(chars_of(lb.as_str()).as_slice(), chars_of(lt.as_str()).as_slice())
            }
        },
        HighlightCondition::ResponseRegex(pattern) => {
            let body = utf8_lossy(resp.body.as_slice());
            match regex_match(pattern.as_str(), body.as_str()) {
                Some(m) => m,
                None => false,
            }
        },
        HighlightCondition::HeaderExists(name) => {
            match find_header(&resp.headers, name.as_str()) {
                Some(_) => true,
                None => false,
            }
        },
        HighlightCondition::HeaderValue { name, value, case_sensitive } => {
            match find_header(&resp.headers, name.as_str()) {
                Some(v) => {
                    if *case_sensitive {
                        str_eq(v.as_str(), value.as_str())
                    } else {
                        let a = to_lowercase(v.as_str());
                        let b = to_lowercase(value.as_str());
                        str_eq(a.as_str(), b.as_str())
                    }
                },
                None => false,
            }
        },
        HighlightCondition::Combined { operator, conditions } => {
            proof {
                lemma_all_any(conditions@, *r, *resp);
            }
            let mut any = false;
            let mut all = true;
            let mut i: usize = 0;
            while i < conditions.len()
                invariant
                    i <= conditions@.len(),
                    *c is Combined,
                    c->Combined_conditions == *conditions,
                    any <==> exists|k: int| 0 <= k < i && condition_holds(#[trigger] conditions@[k], *r, *resp),
                    all <==> forall|k: int| 0 <= k < i ==> condition_holds(#[trigger] conditions@[k], *r, *resp),
                decreases conditions.len() - i,
            {
                proof {
                    let cc = *c;
                    assert(decreases_to!(cc => cc->Combined_conditions));
                    assert(decreases_to!(cc->Combined_conditions => cc->Combined_conditions@));
                    assert(decreases_to!(cc->Combined_conditions@ => cc->Combined_conditions@[i as int]));
                }
                let h = evaluate_highlight_condition(&conditions[i], r, resp);
                if h {
                    any = true;
                } else {
                    all = false;
                }
                i = i + 1;
            }
            match operator {
                LogicalOperator::And => all,
                LogicalOperator::Or => any,
                LogicalOperator::Not => !any,
            }
        },
    }
}

/// The reasons a result is highlighted: `<name>: <description>` of every enabled
/// rule whose condition holds, in rule order; none when auto-highlighting is off.
pub open spec fn highlight_reasons(rules: Seq<HighlightRule>, r: StreamedResult, resp: HttpResponseData) -> Seq<Seq<char>>
    decreases rules.len(),
{
    if rules.len() == 0 {
        Seq::empty()
    } else {
        let rest = highlight_reasons(rules.drop_last(), r, resp);
        let rule = rules.last();
        if rule.enabled && condition_holds(rule.condition, r, resp) {
            rest.push(rule.name@ + ": "@ + rule.description@)
        } else {
            rest
        }
    }
}

/// Applies the highlight rules to a result: whether it is highlighted, and why.
pub fn apply_highlighting_rules(config: &HighlightingConfig, r: &StreamedResult, resp: &HttpResponseData) -> (out: (
    bool,
    Vec<String>,
))
    ensures
        !config.auto_highlight_enabled ==> !out.0 && out.1@.len() == 0,
        config.auto_highlight_enabled ==> out.1@.map_values(|s: String| s@) == highlight_reasons(config.rules@, *r, *resp)
            && out.0 == (out.1@.len() > 0),
{
    if !config.auto_highlight_enabled {
        return (false, Vec::new());
    }
    let mut reasons: Vec<String> = Vec::new();
    let mut i: usize = 0;
    while i < config.rules.len()
        invariant
            i <= config.rules@.len(),
            reasons@.map_values(|s: String| s@) == highlight_reasons(config.rules@.take(i as int), *r, *resp),
        decreases config.rules.len() - i,
    {
        proof {
            assert(config.rules@.take(i + 1).drop_last() =~= config.rules@.take(i as int));
        }
        let rule = &config.rules[i];
        if rule.enabled && evaluate_highlight_condition(&rule.condition, r, resp) {
            let ghost r0 = reasons@;
            let mut m = rule.name.clone();
            append_str(&mut m, ": ");
            append_str(&mut m, rule.description.as_str());
            reasons.push(m);
            proof {
                assert(reasons@.map_values(|s: String| s@) =~= r0.map_values(|s: String| s@).push(
                    rule.name@ + ": "@ + rule.description@,
                ));
            }
        }
        i = i + 1;
    }
    proof {
        assert(config.rules@.take(config.rules@.len() as int) =~= config.rules@);
    }
    let highlighted = reasons.len() > 0;
    (highlighted, reasons)
}

/// The rules highlighting starts with: error statuses (400-599, priority 7),
/// success statuses (200-299, priority 3), responses over 100 000 bytes
/// (priority 5) and responses slower than five seconds (priority 6), all enabled.
pub open spec fn is_default_rules(r: Seq<HighlightRule>) -> bool {
    &&& r.len() == 4
    &&& r[0].id@ == "error_status"@ && r[0].name@ == "Error Status Codes"@
        && r[0].description@ == "HTTP error status codes (4xx, 5xx)"@
        && r[0].condition == (HighlightCondition::StatusCodeRange { min: 400, max: 599 }) && r[0].priority == 7
        && r[0].enabled && (r[0].color matches Some(c) && c@ == "#ff6b6b"@)
    &&& r[1].id@ == "success_status"@ && r[1].name@ == "Success Status Codes"@
        && r[1].description@ == "HTTP success status codes (2xx)"@
        && r[1].condition == (HighlightCondition::StatusCodeRange { min: 200, max: 299 }) && r[1].priority == 3
        && r[1].enabled && (r[1].color matches Some(c) && c@ == "#51cf66"@)
    &&& r[2].id@ == "large_response"@ && r[2].name@ == "Large Response"@ && r[2].description@ == "Response larger than 100KB"@
        && r[2].condition == (HighlightCondition::ResponseLength { min: Some(100000), max: None }) && r[2].priority == 5
        && r[2].enabled && (r[2].color matches Some(c) && c@ == "#ffd43b"@)
    &&& r[3].id@ == "slow_response"@ && r[3].name@ == "Slow Response"@ && r[3].description@ == "Response time over 5 seconds"@
        && r[3].condition == (HighlightCondition::ResponseTime { min_ms: Some(5000), max_ms: None }) && r[3].priority == 6
        && r[3].enabled && (r[3].color matches Some(c) && c@ == "#ff922b"@)
}

fn rule(id: &str, name: &str, description: &str, condition: HighlightCondition, priority: u8, color: &str) -> (r: HighlightRule)
    ensures
        r.id@ == id@ && r.name@ == name@ && r.description@ == description@ && r.condition == condition && r.priority
            == priority && r.enabled && (r.color matches Some(c) && c@ == color@),
{
    HighlightRule {
        id: owned(id),
        name: owned(name),
        description: owned(description),
        condition,
        priority,
        enabled: true,
        color: Some(owned(color)),
    }
}

/// The highlight rules a streaming manager starts with (see `is_default_rules`).
pub fn create_default_highlight_rules() -> (r: Vec<HighlightRule>)
    ensures
        is_default_rules(r@),
{
    let mut v: Vec<HighlightRule> = Vec::new();
    v.push(
        rule(
            "error_status",
            "Error Status Codes",
            "HTTP error status codes (4xx, 5xx)",
            HighlightCondition::StatusCodeRange { min: 400, max: 599 },
            7,
            "#ff6b6b",
        ),
    );
    v.push(
        rule(
            "success_status",
            "Success Status Codes",
            "HTTP success status codes (2xx)",
            HighlightCondition::StatusCodeRange { min: 200, max: 299 },
            3,
            "#51cf66",
        ),
    );
    v.push(
        rule(
            "large_response",
            "Large Response",
            "Response larger than 100KB",
            HighlightCondition::ResponseLength { min: Some(100000), max: None },
            5,
            "#ffd43b",
        ),
    );
    v.push(
        rule(
            "slow_response",
            "Slow Response",
            "Response time over 5 seconds",
            HighlightCondition::ResponseTime { min_ms: Some(5000), max_ms: None },
            6,
            "#ff922b",
        ),
    );
    v
}

/// The UTC time `YYYY-MM-DD HH:MM:SS UTC` of an instant in milliseconds, as
/// chrono formats it; `None` for an instant chrono cannot represent.
pub uninterp spec fn utc_text(ms: i64) -> Option<Seq<char>>;

/// `chrono::DateTime::from_timestamp_millis` then `format("%Y-%m-%d %H:%M:%S UTC")`:
/// the result is named by `utc_text`.
#[verifier::external_body]
pub fn format_utc(ms: i64) -> (r: Option<String>)
    ensures
        match r {
            Some(s) => utc_text(ms) == Some(s@),
            None => utc_text(ms) is None,
        },
{
    match chrono::DateTime::from_timestamp_millis(ms) {
        Some(d) => Some(d.format("%Y-%m-%d %H:%M:%S UTC").to_string()),
        None => None,
    }
}

/// The time text used in exports (empty for an instant that cannot be shown).
pub open spec fn time_cell(ms: i64) -> Seq<char> {
    match utc_text(ms) {
        Some(t) => t,
        None => Seq::empty(),
    }
}

fn time_string(ms: i64) -> (r: String)
    ensures
        r@ == time_cell(ms),
{
    match format_utc(ms) {
        Some(s) => s,
        None => {
            let e = String::new();
            proof {
                assert(e@ =~= Seq::<char>::empty());
            }
            e
        },
    }
}

/// The text of an optional number (empty when absent).
pub open spec fn opt_cell(o: Option<int>) -> Seq<char> {
    match o {
        Some(n) => int_text(n),
        None => Seq::empty(),
    }
}

fn opt_string(o: Option<i64>) -> (r: String)
    ensures
        r@ == opt_cell(
            match o {
                Some(n) => Some(n as int),
                None => None,
            },
        ),
{
    match o {
        Some(n) => i64_text(n),
        None => {
            let e = String::new();
            proof {
                assert(e@ =~= Seq::<char>::empty());
            }
            e
        },
    }
}

proof fn lemma_nat_int_text(n: nat)
    ensures
        int_text(n as int) == nat_text(n),
{
}

fn opt_u64_string(o: Option<u64>) -> (r: String)
    ensures
        r@ == opt_cell(
            match o {
                Some(n) => Some(n as int),
                None => None,
            },
        ),
{
    match o {
        Some(n) => {
            proof {
                lemma_nat_int_text(n as nat);
            }
            u64_text(n)
        },
        None => {
            let e = String::new();
            proof {
                assert(e@ =~= Seq::<char>::empty());
            }
            e
        },
    }
}

/// The status code of a result as a number.
pub open spec fn status_num(r: StreamedResult) -> Option<int> {
    match r.status_code {
        Some(c) => Some(c as int),
        None => None,
    }
}

/// The response length of a result as a number.
pub open spec fn length_num(r: StreamedResult) -> Option<int> {
    match r.response_length {
        Some(c) => Some(c as int),
        None => None,
    }
}

/// The duration of a result as a number.
pub open spec fn duration_num(r: StreamedResult) -> Option<int> {
    match r.duration_ms {
        Some(c) => Some(c as int),
        None => None,
    }
}

/// One CSV line of a result.
pub open spec fn csv_row(r: StreamedResult) -> Seq<char> {
    r.result_id@ + ","@ + r.agent_id@ + ","@ + opt_cell(status_num(r)) + ","@ + opt_cell(length_num(r)) + ","@ + opt_cell(
        duration_num(r),
    ) + ","@ + time_cell(r.executed_at) + ","@ + bool_text(r.is_highlighted) + ","@ + join(texts(r.highlight_reasons@), "; "@)
        + "\n"@
}

/// The CSV header line.
pub open spec fn csv_header() -> Seq<char> {
    "Result ID,Agent ID,Status Code,Response Length,Duration (ms),Executed At,Is Highlighted,Highlight Reasons\n"@
}

/// Concatenation of the rows made by `f`.
pub open spec fn rows(results: Seq<StreamedResult>, f: spec_fn(StreamedResult) -> Seq<char>) -> Seq<char>
    decreases results.len(),
{
    if results.len() == 0 { Seq::empty() } else { rows(results.drop_last(), f) + f(results.last()) }
}

fn status_string(r: &StreamedResult) -> (s: String)
    ensures
        s@ == opt_cell(status_num(*r)),
{
    opt_string(
        match r.status_code {
            Some(c) => Some(c as i64),
            None => None,
        },
    )
}

fn length_string(r: &StreamedResult) -> (s: String)
    ensures
        s@ == opt_cell(length_num(*r)),
{
    opt_u64_string(
        match r.response_length {
            Some(c) => Some(c as u64),
            None => None,
        },
    )
}

fn csv_row_string(r: &StreamedResult) -> (s: String)
    ensures
        s@ == csv_row(*r),
{
    let mut s = r.result_id.clone();
    append_str(&mut s, ",");
    append_str(&mut s, r.agent_id.as_str());
    append_str(&mut s, ",");
    let a = status_string(r);
    append_str(&mut s, a.as_str());
    append_str(&mut s, ",");
    let b = length_string(r);
    append_str(&mut s, b.as_str());
    append_str(&mut s, ",");
    let c = opt_u64_string(r.duration_ms);
    append_str(&mut s, c.as_str());
    append_str(&mut s, ",");
    let t = time_string(r.executed_at);
    append_str(&mut s, t.as_str());
    append_str(&mut s, ",");
    let h = bool_string(r.is_highlighted);
    append_str(&mut s, h.as_str());
    append_str(&mut s, ",");
    let j = join_strings(&r.highlight_reasons, "; ");
    append_str(&mut s, j.as_str());
    append_str(&mut s, "\n");
    s
}

/// Exports results as CSV: a header line, then one line per result.
pub fn export_as_csv(results: &Vec<StreamedResult>) -> (r: String)
    ensures
        r@ == csv_header() + rows(results@, |x: StreamedResult| csv_row(x)),
{
    let mut out = owned(
        "Result ID,Agent ID,Status Code,Response Length,Duration (ms),Executed At,Is Highlighted,Highlight Reasons\n",
    );
    let ghost f = |x: StreamedResult| csv_row(x);
    let mut i: usize = 0;
    while i < results.len()
        invariant
            i <= results@.len(),
            f == (|x: StreamedResult| csv_row(x)),
            out@ == csv_header() + rows(results@.take(i as int), f),
        decreases results.len() - i,
    {
        proof {
            assert(results@.take(i + 1).drop_last() =~= results@.take(i as int));
        }
        let row = csv_row_string(&results[i]);
        let ghost o0 = out@;
        append_str(&mut out, row.as_str());
        proof {
            assert(out@ =~= csv_header() + rows(results@.take(i + 1), f));
        }
        i = i + 1;
    }
    proof {
        assert(results@.take(results@.len() as int) =~= results@);
    }
    out
}

/// An XML element line `    <tag>text</tag>\n`.
pub open spec fn xml_line(tag: Seq<char>, text: Seq<char>) -> Seq<char> {
    "    <"@ + tag + ">"@ + text + "</"@ + tag + ">\n"@
}

/// The XML element of a result; absent numbers leave their element out.
pub open spec fn xml_row(r: StreamedResult) -> Seq<char> {
    "  <result>\n"@ + xml_line("id"@, r.result_id@) + xml_line("agent_id"@, r.agent_id@) + (match status_num(r) {
        Some(n) => xml_line("status_code"@, int_text(n)),
        None => Seq::empty(),
    }) + (match length_num(r) {
        Some(n) => xml_line("response_length"@, int_text(n)),
        None => Seq::empty(),
    }) + (match duration_num(r) {
        Some(n) => xml_line("duration_ms"@, int_text(n)),
        None => Seq::empty(),
    }) + xml_line("executed_at"@, time_cell(r.executed_at)) + xml_line("is_highlighted"@, bool_text(r.is_highlighted))
        + "  </result>\n"@
}

fn push_xml_line(s: &mut String, tag: &str, text: &str)
    ensures
        final(s)@ == old(s)@ + xml_line(tag@, text@),
{
    append_str(s, "    <");
    append_str(s, tag);
    append_str(s, ">");
    append_str(s, text);
    append_str(s, "</");
    append_str(s, tag);
    append_str(s, ">\n");
}

fn xml_row_string(r: &StreamedResult) -> (s: String)
    ensures
        s@ == xml_row(*r),
{
    let mut s = owned("  <result>\n");
    push_xml_line(&mut s, "id", r.result_id.as_str());
    push_xml_line(&mut s, "agent_id", r.agent_id.as_str());
    let ghost s3 = s@;
    match r.status_code {
        Some(c) => {
            let t = i64_text(c as i64);
            push_xml_line(&mut s, "status_code", t.as_str());
        },
        None => {
            proof {
                assert(s@ =~= s3 + Seq::<char>::empty());
            }
        },
    }
    let ghost s4 = s@;
    match r.response_length {
        Some(c) => {
            proof {
                lemma_nat_int_text(c as nat);
            }
            let t = usize_text(c);
            push_xml_line(&mut s, "response_length", t.as_str());
        },
        None => {
            proof {
                assert(s@ =~= s4 + Seq::<char>::empty());
            }
        },
    }
    let ghost s5 = s@;
    match r.duration_ms {
        Some(c) => {
            proof {
                lemma_nat_int_text(c as nat);
            }
            let t = u64_text(c);
            push_xml_line(&mut s, "duration_ms", t.as_str());
        },
        None => {
            proof {
                assert(s@ =~= s5 + Seq::<char>::empty());
            }
        },
    }
    let t = time_string(r.executed_at);
    push_xml_line(&mut s, "executed_at", t.as_str());
    let h = bool_string(r.is_highlighted);
    push_xml_line(&mut s, "is_highlighted", h.as_str());
    append_str(&mut s, "  </result>\n");
    s
}

/// Exports results as XML: a declaration, then a `results` element holding one
/// `result` element per result.
pub fn export_as_xml(results: &Vec<StreamedResult>) -> (r: String)
    ensures
        r@ == "<?xml version=\"1.0\" encoding=\"UTF-8\"?>\n<results>\n"@ + rows(results@, |x: StreamedResult| xml_row(x))
            + "</results>\n"@,
{
    let mut out = owned("<?xml version=\"1.0\" encoding=\"UTF-8\"?>\n");
    append_str(&mut out, "<results>\n");
    let ghost head = out@;
    let ghost f = |x: StreamedResult| xml_row(x);
    let mut i: usize = 0;
    while i < results.len()
        invariant
            i <= results@.len(),
            f == (|x: StreamedResult| xml_row(x)),
            head == "<?xml version=\"1.0\" encoding=\"UTF-8\"?>\n"@ + "<results>\n"@,
            out@ == head + rows(results@.take(i as int), f),
        decreases results.len() - i,
    {
        proof {
            assert(results@.take(i + 1).drop_last() =~= results@.take(i as int));
        }
        let row = xml_row_string(&results[i]);
        append_str(&mut out, row.as_str());
        proof {
            assert(out@ =~= head + rows(results@.take(i + 1), f));
        }
        i = i + 1;
    }
    proof {
        assert(results@.take(results@.len() as int) =~= results@);
        reveal_strlit("<?xml version=\"1.0\" encoding=\"UTF-8\"?>\n");
        reveal_strlit("<results>\n");
        reveal_strlit("<?xml version=\"1.0\" encoding=\"UTF-8\"?>\n<results>\n");
        assert("<?xml version=\"1.0\" encoding=\"UTF-8\"?>\n"@ + "<results>\n"@ =~= "<?xml version=\"1.0\" encoding=\"UTF-8\"?>\n<results>\n"@);
    }
    append_str(&mut out, "</results>\n");
    out
}

/// A table cell line `  <td>text</td>\n`.
pub open spec fn td(text: Seq<char>) -> Seq<char> {
    "  <td>"@ + text + "</td>\n"@
}

/// The table row of a result; highlighted rows carry the `highlighted` class.
pub open spec fn html_row(r: StreamedResult) -> Seq<char> {
    "<tr"@ + (if r.is_highlighted { " class=\"highlighted\""@ } else { Seq::empty() }) + ">\n"@ + td(r.result_id@) + td(
        r.agent_id@,
    ) + td(opt_cell(status_num(r))) + td(opt_cell(length_num(r))) + td(opt_cell(duration_num(r))) + td(
        time_cell(r.executed_at),
    ) + td(if r.is_highlighted { "Yes"@ } else { "No"@ }) + "</tr>\n"@
}

/// The page before the result rows.
pub open spec fn html_head() -> Seq<char> {
    "<!DOCTYPE html>\n<html>\n<head>\n"@ + "<title>Attack Results</title>\n"@ + "<style>\n"@
        + "table { border-collapse: collapse; width: 100%; }\n"@
        + "th, td { border: 1px solid #ddd; padding: 8px; text-align: left; }\n"@
        + "th { background-color: #f2f2f2; }\n"@ + ".highlighted { background-color: #fff3cd; }\n"@ + "</style>\n"@
        + "</head>\n<body>\n"@ + "<h1>Attack Results</h1>\n"@ + "<table>\n"@
        + "<tr><th>Result ID</th><th>Agent ID</th><th>Status Code</th><th>Response Length</th><th>Duration (ms)</th><th>Executed At</th><th>Highlighted</th></tr>\n"@
}

fn push_td(s: &mut String, text: &str)
    ensures
        final(s)@ == old(s)@ + td(text@),
{
    append_str(s, "  <td>");
    append_str(s, text);
    append_str(s, "</td>\n");
}

fn html_row_string(r: &StreamedResult) -> (s: String)
    ensures
        s@ == html_row(*r),
{
    let mut s = owned("<tr");
    if r.is_highlighted {
        append_str(&mut s, " class=\"highlighted\"");
    } else {
        proof {
            assert(s@ =~= s@ + Seq::<char>::empty());
        }
    }
    append_str(&mut s, ">\n");
    push_td(&mut s, r.result_id.as_str());
    push_td(&mut s, r.agent_id.as_str());
    let a = status_string(r);
    push_td(&mut s, a.as_str());
    let b = length_string(r);
    push_td(&mut s, b.as_str());
    let c = opt_u64_string(r.duration_ms);
    push_td(&mut s, c.as_str());
    let t = time_string(r.executed_at);
    push_td(&mut s, t.as_str());
    if r.is_highlighted {
        push_td(&mut s, "Yes");
    } else {
        push_td(&mut s, "No");
    }
    append_str(&mut s, "</tr>\n");
    s
}

/// Exports results as an HTML page with one table row per result.
pub fn export_as_html(results: &Vec<StreamedResult>) -> (r: String)
    ensures
        r@ == html_head() + rows(results@, |x: StreamedResult| html_row(x)) + "</table>\n"@ + "</body>\n</html>\n"@,
{
    let mut out = owned("<!DOCTYPE html>\n<html>\n<head>\n");
    append_str(&mut out, "<title>Attack Results</title>\n");
    append_str(&mut out, "<style>\n");
    append_str(&mut out, "table { border-collapse: collapse; width: 100%; }\n");
    append_str(&mut out, "th, td { border: 1px solid #ddd; padding: 8px; text-align: left; }\n");
    append_str(&mut out, "th { background-color: #f2f2f2; }\n");
    append_str(&mut out, ".highlighted { background-color: #fff3cd; }\n");
    append_str(&mut out, "</style>\n");
    append_str(&mut out, "</head>\n<body>\n");
    append_str(&mut out, "<h1>Attack Results</h1>\n");
    append_str(&mut out, "<table>\n");
    append_str(
        &mut out,
        "<tr><th>Result ID</th><th>Agent ID</th><th>Status Code</th><th>Response Length</th><th>Duration (ms)</th><th>Executed At</th><th>Highlighted</th></tr>\n",
    );
    let ghost f = |x: StreamedResult| html_row(x);
    let mut i: usize = 0;
    while i < results.len()
        invariant
            i <= results@.len(),
            f == (|x: StreamedResult| html_row(x)),
            out@ == html_head() + rows(results@.take(i as int), f),
        decreases results.len() - i,
    {
        proof {
            assert(results@.take(i + 1).drop_last() =~= results@.take(i as int));
        }
        let row = html_row_string(&results[i]);
        append_str(&mut out, row.as_str());
        proof {
            assert(out@ =~= html_head() + rows(results@.take(i + 1), f));
        }
        i = i + 1;
    }
    proof {
        assert(results@.take(results@.len() as int) =~= results@);
    }
    append_str(&mut out, "</table>\n");
    append_str(&mut out, "</body>\n</html>\n");
    out
}

/// Counters of one agent's results.
#[derive(Debug)]
pub struct AgentStatsTracker {
    pub agent_id: String,
    pub completed_requests: usize,
    pub successful_requests: usize,
    pub failed_requests: usize,
    /// The most recent response times (older ones are dropped in halves).
    pub response_times: Vec<u64>,
    /// Milliseconds since the epoch.
    pub last_activity: Option<i64>,
}

/// Counters of a source's results.
#[derive(Debug)]
pub struct StatisticsTracker {
    /// Milliseconds since the epoch.
    pub start_time: i64,
    pub total_requests: usize,
    pub completed_requests: usize,
    pub successful_requests: usize,
    pub failed_requests: usize,
    pub highlighted_results: usize,
    /// The most recent response times (older ones are dropped in halves).
    pub response_times: Vec<u64>,
    /// How often each status code occurred, in order of first occurrence.
    pub status_codes: Vec<(i32, usize)>,
    pub agent_stats: Vec<AgentStatsTracker>,
    /// Milliseconds since the epoch.
    pub last_update: i64,
}

/// A window of recent values: once it holds more than `max`, its oldest
/// `drop` values go.
pub open spec fn windowed(v: Seq<u64>, max: nat, drop: nat) -> Seq<u64> {
    if v.len() > max { v.subrange(drop as int, v.len() as int) } else { v }
}

/// A result counts as a success: it has a status below 400.
pub open spec fn result_ok(r: StreamedResult) -> bool {
    r.status_code matches Some(c) && c < 400
}

/// Position of the counters of agent `id`, or -1.
pub open spec fn agent_stats_index(a: Seq<AgentStatsTracker>, id: Seq<char>) -> int
    decreases a.len(),
{
    if a.len() == 0 {
        -1
    } else if a[0].agent_id@ == id {
        0
    } else {
        let k = agent_stats_index(a.drop_first(), id);
        if k < 0 { -1 } else { k + 1 }
    }
}

proof fn lemma_agent_stats_index(a: Seq<AgentStatsTracker>, id: Seq<char>)
    ensures
        -1 <= agent_stats_index(a, id) < a.len(),
        agent_stats_index(a, id) >= 0 ==> a[agent_stats_index(a, id)].agent_id@ == id,
        agent_stats_index(a, id) >= 0 ==> forall|t: int| 0 <= t < agent_stats_index(a, id) ==> a[t].agent_id@ != id,
        agent_stats_index(a, id) < 0 ==> forall|t: int| 0 <= t < a.len() ==> a[t].agent_id@ != id,
    decreases a.len(),
{
    if a.len() > 0 {
        lemma_agent_stats_index(a.drop_first(), id);
        assert forall|t: int| 0 < t < a.len() implies a[t] == a.drop_first()[t - 1] by {}
    }
}

/// Position of the count of status `c`, or -1.
pub open spec fn code_index(v: Seq<(i32, usize)>, c: i32) -> int
    decreases v.len(),
{
    if v.len() == 0 {
        -1
    } else if v[0].0 == c {
        0
    } else {
        let k = code_index(v.drop_first(), c);
        if k < 0 { -1 } else { k + 1 }
    }
}

proof fn lemma_code_index(v: Seq<(i32, usize)>, c: i32)
    ensures
        -1 <= code_index(v, c) < v.len(),
        code_index(v, c) >= 0 ==> v[code_index(v, c)].0 == c,
        code_index(v, c) >= 0 ==> forall|t: int| 0 <= t < code_index(v, c) ==> v[t].0 != c,
        code_index(v, c) < 0 ==> forall|t: int| 0 <= t < v.len() ==> v[t].0 != c,
    decreases v.len(),
{
    if v.len() > 0 {
        lemma_code_index(v.drop_first(), c);
        assert forall|t: int| 0 < t < v.len() implies v[t] == v.drop_first()[t - 1] by {}
    }
}

/// The status counts after one more result with status `c`.
pub open spec fn count_code(v: Seq<(i32, usize)>, c: i32) -> Seq<(i32, usize)> {
    let k = code_index(v, c);
    if k >= 0 { v.update(k, (c, (v[k].1 + 1) as usize)) } else { v.push((c, 1usize)) }
}

/// The counters can take one more result without overflowing.
pub open spec fn tracker_has_room(t: StatisticsTracker, agent: Seq<char>) -> bool {
    &&& t.completed_requests < usize::MAX
    &&& t.successful_requests < usize::MAX
    &&& t.failed_requests < usize::MAX
    &&& t.highlighted_results < usize::MAX
    &&& forall|k: int| 0 <= k < t.status_codes@.len() ==> (#[trigger] t.status_codes@[k]).1 < usize::MAX
    &&& ({
        let k = agent_stats_index(t.agent_stats@, agent);
        k >= 0 ==> {
            let a = t.agent_stats@[k];
            a.completed_requests < usize::MAX && a.successful_requests < usize::MAX && a.failed_requests
                < usize::MAX
        }
    })
}

/// What counting one more result `r` at `now` makes of the counters `t0`:
/// completed, successful (status below 400) or failed, highlighted, the status
/// code's count, the response time (keeping at most the latest 10 000, dropping
/// the oldest 5 000 when over), and the same for the result's agent (at most
/// 1 000 times, dropping 500), whose entry is added at the end when it is new.
pub open spec fn statistics_after(t0: StatisticsTracker, r: StreamedResult, now: i64, t: StatisticsTracker) -> bool {
    let k = agent_stats_index(t.agent_stats@, r.agent_id@);
    let k0 = agent_stats_index(t0.agent_stats@, r.agent_id@);
    let a = t.agent_stats@[k];
    let ok: int = if result_ok(r) { 1 } else { 0 };
    let prev_times = if k0 >= 0 { t0.agent_stats@[k0].response_times@ } else { Seq::empty() };
    &&& t.total_requests == t0.total_requests
    &&& t.start_time == t0.start_time
    &&& t.last_update == now
    &&& t.completed_requests == t0.completed_requests + 1
    &&& t.successful_requests == t0.successful_requests + ok
    &&& t.failed_requests == t0.failed_requests + (1 - ok)
    &&& t.highlighted_results == t0.highlighted_results + (if r.is_highlighted { 1int } else { 0int })
    &&& t.status_codes@ == (match r.status_code {
        Some(c) => count_code(t0.status_codes@, c),
        None => t0.status_codes@,
    })
    &&& t.response_times@ == (match r.duration_ms {
        Some(d) => windowed(t0.response_times@.push(d), 10000, 5000),
        None => t0.response_times@,
    })
    &&& k >= 0
    &&& k0 >= 0 ==> k == k0
    &&& k0 < 0 ==> k == t0.agent_stats@.len()
    &&& a.completed_requests == (if k0 >= 0 { t0.agent_stats@[k0].completed_requests as int } else { 0 }) + 1
    &&& a.successful_requests == (if k0 >= 0 { t0.agent_stats@[k0].successful_requests as int } else { 0 }) + ok
    &&& a.failed_requests == (if k0 >= 0 { t0.agent_stats@[k0].failed_requests as int } else { 0 }) + (1 - ok)
    &&& a.last_activity == Some(now)
    &&& a.response_times@ == (match r.duration_ms {
        Some(d) => windowed(prev_times.push(d), 1000, 500),
        None => prev_times,
    })
    &&& t.agent_stats@.len() == (if k0 >= 0 { t0.agent_stats@.len() } else { t0.agent_stats@.len() + 1 })
    &&& forall|u: int| 0 <= u < t0.agent_stats@.len() && u != k ==> t.agent_stats@[u] == t0.agent_stats@[u]
}

impl StatisticsTracker {
    /// Fresh counters for a source expecting `total_requests` results, started at `now`.
    pub fn new(total_requests: usize, now: i64) -> (t: StatisticsTracker)
        ensures
            t.start_time == now && t.last_update == now && t.total_requests == total_requests,
            t.completed_requests == 0 && t.successful_requests == 0 && t.failed_requests == 0 && t.highlighted_results == 0,
            t.response_times@.len() == 0 && t.status_codes@.len() == 0 && t.agent_stats@.len() == 0,
    {
        StatisticsTracker {
            start_time: now,
            total_requests,
            completed_requests: 0,
            successful_requests: 0,
            failed_requests: 0,
            highlighted_results: 0,
            response_times: Vec::new(),
            status_codes: Vec::new(),
            agent_stats: Vec::new(),
            last_update: now,
        }
    }

    /// Counts one more result at `now`: completed, successful (status below 400)
    /// or failed (an error status or none), highlighted, its status code, its
    /// response time (keeping the latest 10 000 at most, dropping the oldest
    /// 5 000 when over), and the same per agent (keeping at most 1 000 times,
    /// dropping 500).
    pub fn update_statistics(&mut self, r: &StreamedResult, now: i64)
        requires
            tracker_has_room(*old(self), r.agent_id@),
        ensures
            statistics_after(*old(self), *r, now, *final(self)),
            old(self).completed_requests == old(self).successful_requests + old(self).failed_requests
                ==> final(self).completed_requests == final(self).successful_requests + final(self).failed_requests,
    {
        let ok = match r.status_code {
            Some(c) => c < 400,
            None => false,
        };
        self.completed_requests = self.completed_requests + 1;
        if ok {
            self.successful_requests = self.successful_requests + 1;
        } else {
            self.failed_requests = self.failed_requests + 1;
        }
        match r.status_code {
            Some(c) => count_status(&mut self.status_codes, c),
            None => {},
        }
        if r.is_highlighted {
            self.highlighted_results = self.highlighted_results + 1;
        }
        match r.duration_ms {
            Some(d) => push_windowed(&mut self.response_times, d, 10000, 5000),
            None => {},
        }
        let ghost s0 = self.agent_stats@;
        let k = agent_slot(&mut self.agent_stats, &r.agent_id);
        let ghost s1 = self.agent_stats@;
        proof {
            if agent_stats_index(s0, r.agent_id@) < 0 {
                assert(s1[k as int].response_times@ =~= Seq::<u64>::empty());
            }
        }
        let mut a = self.agent_stats.remove(k);
        record_for_agent(&mut a, ok, r.duration_ms, now);
        self.agent_stats.insert(k, a);
        proof {
            let s2 = self.agent_stats@;
            assert(s2 =~= s1.update(k as int, a));
            lemma_agent_stats_index(s1, r.agent_id@);
            lemma_agent_stats_index(s2, r.agent_id@);
            let f = agent_stats_index(s2, r.agent_id@);
            assert(s2[k as int].agent_id@ == r.agent_id@);
            if f >= 0 && f < k {
                assert(s2[f] == s1[f]);
            }
            assert(f == k);
        }
        self.last_update = now;
    }
}

/// Counts one more occurrence of status `c`.
fn count_status(codes: &mut Vec<(i32, usize)>, c: i32)
    requires
        forall|k: int| 0 <= k < old(codes)@.len() ==> (#[trigger] old(codes)@[k]).1 < usize::MAX,
    ensures
        final(codes)@ == count_code(old(codes)@, c),
{
    let ghost v0 = codes@;
    proof {
        lemma_code_index(v0, c);
    }
    let mut j: usize = 0;
    while j < codes.len() && codes[j].0 != c
        invariant
            codes@ == v0,
            j <= codes@.len(),
            forall|t: int| 0 <= t < j ==> codes@[t].0 != c,
        decreases codes.len() - j,
    {
        j = j + 1;
    }
    if j < codes.len() {
        proof {
            let f = code_index(v0, c);
            if f >= 0 && f < j {
                assert(v0[f].0 == c);
            }
            assert(f == j);
        }
        let n = codes[j].1;
        codes.set(j, (c, n + 1));
    } else {
        proof {
            let f = code_index(v0, c);
            if f >= 0 {
                assert(v0[f].0 == c);
            }
        }
        codes.push((c, 1));
    }
}

/// Appends `d`; once more than `max` values are held, the oldest `drop` go.
fn push_windowed(v: &mut Vec<u64>, d: u64, max: usize, drop: usize)
    requires
        drop <= max,
    ensures
        final(v)@ == windowed(old(v)@.push(d), max as nat, drop as nat),
{
    v.push(d);
    if v.len() > max {
        let tail = v.split_off(drop);
        *v = tail;
    }
}

/// Finds the counters of agent `id`, adding fresh ones at the end when there
/// are none, and returns their position.
fn agent_slot(stats: &mut Vec<AgentStatsTracker>, id: &String) -> (k: usize)
    ensures
        ({
            let k0 = agent_stats_index(old(stats)@, id@);
            &&& k < final(stats)@.len()
            &&& final(stats)@[k as int].agent_id@ == id@
            &&& k0 >= 0 ==> k == k0 && final(stats)@ == old(stats)@
            &&& k0 < 0 ==> k == old(stats)@.len() && final(stats)@ == old(stats)@.push(final(stats)@[k as int])
            &&& k0 < 0 ==> ({
                let a = final(stats)@[k as int];
                a.completed_requests == 0 && a.successful_requests == 0 && a.failed_requests == 0
                    && a.response_times@.len() == 0 && a.last_activity is None
            })
            &&& forall|t: int| 0 <= t < k ==> (#[trigger] final(stats)@[t]).agent_id@ != id@
        }),
{
    let ghost s0 = stats@;
    proof {
        lemma_agent_stats_index(s0, id@);
    }
    let mut k: usize = 0;
    while k < stats.len() && !str_eq(stats[k].agent_id.as_str(), id.as_str())
        invariant
            stats@ == s0,
            k <= stats@.len(),
            forall|t: int| 0 <= t < k ==> stats@[t].agent_id@ != id@,
        decreases stats.len() - k,
    {
        k = k + 1;
    }
    if k == stats.len() {
        proof {
            let f = agent_stats_index(s0, id@);
            if f >= 0 {
                assert(s0[f].agent_id@ == id@);
            }
        }
        stats.push(
            AgentStatsTracker {
                agent_id: owned(id.as_str()),
                completed_requests: 0,
                successful_requests: 0,
                failed_requests: 0,
                response_times: Vec::new(),
                last_activity: None,
            },
        );
    } else {
        proof {
            let f = agent_stats_index(s0, id@);
            if f >= 0 && f < k {
                assert(s0[f].agent_id@ == id@);
            }
            assert(f == k);
        }
    }
    k
}

/// Counts one more result of an agent at `now`.
fn record_for_agent(a: &mut AgentStatsTracker, ok: bool, duration: Option<u64>, now: i64)
    requires
        old(a).completed_requests < usize::MAX,
        old(a).successful_requests < usize::MAX,
        old(a).failed_requests < usize::MAX,
    ensures
        final(a).agent_id@ == old(a).agent_id@,
        final(a).completed_requests == old(a).completed_requests + 1,
        final(a).successful_requests == old(a).successful_requests + (if ok { 1int } else { 0int }),
        final(a).failed_requests == old(a).failed_requests + (if ok { 0int } else { 1int }),
        final(a).last_activity == Some(now),
        final(a).response_times@ == (match duration {
            Some(d) => windowed(old(a).response_times@.push(d), 1000, 500),
            None => old(a).response_times@,
        }),
{
    a.completed_requests = a.completed_requests + 1;
    a.last_activity = Some(now);
    if ok {
        a.successful_requests = a.successful_requests + 1;
    } else {
        a.failed_requests = a.failed_requests + 1;
    }
    match duration {
        Some(d) => push_windowed(&mut a.response_times, d, 1000, 500),
        None => {},
    }
}

/// Combined conditions: `And` holds exactly when every one of its conditions
/// holds, `Or` exactly when at least one holds, and `Not` exactly when none does.
pub proof fn law_combined_conditions(conditions: Vec<HighlightCondition>, r: StreamedResult, resp: HttpResponseData)
    ensures
        condition_holds(HighlightCondition::Combined { operator: LogicalOperator::And, conditions }, r, resp)
            <==> forall|k: int| 0 <= k < conditions@.len() ==> condition_holds(#[trigger] conditions@[k], r, resp),
        condition_holds(HighlightCondition::Combined { operator: LogicalOperator::Or, conditions }, r, resp)
            <==> exists|k: int| 0 <= k < conditions@.len() && condition_holds(#[trigger] conditions@[k], r, resp),
        condition_holds(HighlightCondition::Combined { operator: LogicalOperator::Not, conditions }, r, resp)
            <==> !exists|k: int| 0 <= k < conditions@.len() && condition_holds(#[trigger] conditions@[k], r, resp),
{
    lemma_all_any(conditions@, r, resp);
}

/// A status-code condition holds exactly when the result has a status code and
/// it is one of the listed codes; a range condition when the code lies in the
/// range, both ends included.
pub proof fn law_status_conditions(codes: Vec<i32>, min: i32, max: i32, r: StreamedResult, resp: HttpResponseData)
    ensures
        condition_holds(HighlightCondition::StatusCode(codes), r, resp) <==> exists|k: int|
            0 <= k < codes@.len() && r.status_code == Some(#[trigger] codes@[k]),
        condition_holds(HighlightCondition::StatusCodeRange { min, max }, r, resp) <==> exists|code: i32|
            r.status_code == Some(code) && min <= code <= max,
{
    if condition_holds(HighlightCondition::StatusCode(codes), r, resp) {
        let code = r.status_code.unwrap();
        let k = choose|k: int| 0 <= k < codes@.len() && codes@[k] == code;
        assert(r.status_code == Some(codes@[k]));
    }
    if let Some(code) = r.status_code {
        assert(min <= code <= max ==> (exists|c: i32| r.status_code == Some(c) && min <= c <= max));
    }
}

/// A result is highlighted for a reason exactly when some enabled rule's
/// condition holds for it, and it gets at most one reason per rule.
pub proof fn law_highlighted_when_some_enabled_rule_holds(
    rules: Seq<HighlightRule>,
    r: StreamedResult,
    resp: HttpResponseData,
)
    ensures
        highlight_reasons(rules, r, resp).len() <= rules.len(),
        highlight_reasons(rules, r, resp).len() > 0 <==> exists|k: int|
            0 <= k < rules.len() && (#[trigger] rules[k]).enabled && condition_holds(rules[k].condition, r, resp),
    decreases rules.len(),
{
    if rules.len() > 0 {
        let d = rules.drop_last();
        law_highlighted_when_some_enabled_rule_holds(d, r, resp);
        if exists|k: int| 0 <= k < d.len() && (#[trigger] d[k]).enabled && condition_holds(d[k].condition, r, resp) {
            let k = choose|k: int| 0 <= k < d.len() && (#[trigger] d[k]).enabled && condition_holds(d[k].condition, r, resp);
            assert(rules[k] == d[k]);
        }
        if exists|k: int| 0 <= k < rules.len() && (#[trigger] rules[k]).enabled && condition_holds(rules[k].condition, r, resp) {
            let k = choose|k: int| 0 <= k < rules.len() && (#[trigger] rules[k]).enabled && condition_holds(rules[k].condition, r, resp);
            if k < d.len() {
                assert(d[k] == rules[k]);
            }
        }
    }
}

/// Each counted result is exactly one success or one failure, a success being
/// a result with a status code below 400; the highlighted count goes up exactly
/// for a highlighted result.
pub proof fn law_result_counted_once(t0: StatisticsTracker, r: StreamedResult, now: i64, t: StatisticsTracker)
    requires
        statistics_after(t0, r, now, t),
    ensures
        t.completed_requests == t0.completed_requests + 1,
        t.successful_requests + t.failed_requests == t0.successful_requests + t0.failed_requests + 1,
        t.successful_requests == t0.successful_requests + 1 <==> (r.status_code matches Some(c) && c < 400),
        t.highlighted_results == t0.highlighted_results + 1 <==> r.is_highlighted,
{
}

} // verus!
