//! API types of the GraphQL schema and their conversions from the library's
//! own records.

pub mod flow;

use vstd::prelude::*;
use base64::Engine;
use crate::database::Project;
use crate::database::intruder::{IntruderAttack, IntruderResult, PayloadSet};
use crate::engine::{AttackMode, DistributionStrategy, HttpHeaders, HttpRequestData, HttpResponseData, PayloadConfig, PayloadConfigView};
use crate::repeater::{validation_status_string, validation_status_text, RepeaterExecutionResponse, RepeaterTabConfig};
use crate::intruder::PayloadSetConfig;
use crate::resource_manager::{uuid_string, uuid_text};
use crate::settings::{InterceptionConfig, InterceptionRule, RuleAction, RuleCondition, ScopeConfig};
use crate::text::{append_str, chars_of, owned, split_chars, split_on, str_eq, string_of, trim_text, trimmed};

verus! {

// ---------------------------------------------------------------------------
// Projects and agents
// ---------------------------------------------------------------------------

/// A project for the API.
#[derive(Debug)]
pub struct ProjectGql {
    pub name: String,
    pub path: String,
    pub size_bytes: i64,
    pub last_modified: String,
    pub is_active: bool,
}

impl ProjectGql {
    /// The API view of a project.
    pub fn from_project(p: Project) -> (r: ProjectGql)
        ensures
            r.name == p.name && r.path == p.path && r.size_bytes == p.size_bytes && r.last_modified == p.last_modified
                && r.is_active == p.is_active,
    {
        ProjectGql { name: p.name, path: p.path, size_bytes: p.size_bytes, last_modified: p.last_modified, is_active: p.is_active }
    }
}

/// Outcome of a project operation.
#[derive(Debug)]
pub struct ProjectOperationResult {
    pub success: bool,
    pub message: String,
}

/// An agent for the API.
#[derive(Debug)]
pub struct AgentGql {
    pub id: String,
    pub name: String,
    pub hostname: String,
    pub status: String,
    pub version: String,
    pub last_heartbeat: String,
}

/// Outcome of replaying a recorded request.
#[derive(Debug)]
pub struct ReplayResult {
    pub success: bool,
    pub message: String,
    pub replay_request_id: Option<String>,
    pub original_url: String,
    pub original_method: String,
}

/// One half of a proxied exchange as an agent reports it.
#[derive(Debug)]
pub enum TrafficEventKind {
    Request(HttpRequestData),
    Response(HttpResponseData),
}

/// A traffic event reported by an agent.
#[derive(Debug)]
pub struct TrafficEvent {
    pub request_id: String,
    pub event: Option<TrafficEventKind>,
}

/// A proxied request as listed by the API: its summary, with the full events
/// kept for the body fields, which are computed only when asked for.
#[derive(Debug)]
pub struct TrafficEventGql {
    pub request_id: String,
    pub method: Option<String>,
    pub url: Option<String>,
    pub status: Option<i32>,
    pub timestamp: Option<String>,
    pub agent_id: Option<String>,
    pub inner_event: TrafficEvent,
    /// The response of the exchange, when the whole exchange is shown.
    pub response_event: Option<TrafficEvent>,
}

/// A body as the API shows it: absent when empty, else its text (see `body_text`).
pub open spec fn shown_body(bytes: Seq<u8>) -> Option<Seq<char>> {
    if bytes.len() == 0 {
        None
    } else {
        Some(body_text(bytes))
    }
}

/// The response body the API shows: that of the exchange's response event when
/// it has a non-empty one, else that of the event itself when it is a response.
pub open spec fn response_body_of(e: TrafficEventGql) -> Option<Seq<char>> {
    let from_exchange = match e.response_event {
        Some(r) => match r.event {
            Some(TrafficEventKind::Response(res)) => shown_body(res.body@),
            _ => None,
        },
        None => None,
    };
    if from_exchange is Some {
        from_exchange
    } else {
        match e.inner_event.event {
            Some(TrafficEventKind::Response(res)) => shown_body(res.body@),
            _ => None,
        }
    }
}

fn shown_body_string(bytes: &Vec<u8>) -> (r: Option<String>)
    ensures
        match r {
            Some(s) => shown_body(bytes@) == Some(s@),
            None => shown_body(bytes@) is None,
        },
{
    if bytes.len() == 0 {
        None
    } else {
        Some(body_string(bytes))
    }
}

impl TrafficEventGql {
    /// The listing entry of an event received at `timestamp`: a request gives
    /// its method and URL, a response its status; the agent is not known from
    /// the event.
    pub fn from_event(e: TrafficEvent, timestamp: String) -> (r: TrafficEventGql)
        ensures
            r.request_id == e.request_id,
            r.timestamp == Some(timestamp),
            r.agent_id is None,
            r.method == (match e.event {
                Some(TrafficEventKind::Request(req)) => Some(req.method),
                _ => None,
            }),
            r.url == (match e.event {
                Some(TrafficEventKind::Request(req)) => Some(req.url),
                _ => None,
            }),
            r.status == (match e.event {
                Some(TrafficEventKind::Response(res)) => Some(res.status_code),
                _ => None,
            }),
            r.inner_event == e,
            r.response_event is None,
    {
        let (method, url, status) = match &e.event {
            Some(TrafficEventKind::Request(req)) => (Some(req.method.clone()), Some(req.url.clone()), None),
            Some(TrafficEventKind::Response(res)) => (None, None, Some(res.status_code)),
            None => (None, None, None),
        };
        TrafficEventGql {
            request_id: e.request_id.clone(),
            method,
            url,
            status,
            timestamp: Some(timestamp),
            agent_id: None,
            inner_event: e,
            response_event: None,
        }
    }

    /// The request body, when the event is a request with a body.
    pub fn request_body(&self) -> (r: Option<String>)
        ensures
            match self.inner_event.event {
                Some(TrafficEventKind::Request(req)) => match r {
                    Some(s) => shown_body(req.body@) == Some(s@),
                    None => shown_body(req.body@) is None,
                },
                _ => r is None,
            },
    {
        match &self.inner_event.event {
            Some(TrafficEventKind::Request(req)) => shown_body_string(&req.body),
            _ => None,
        }
    }

    /// The response body (see `response_body_of`).
    pub fn response_body(&self) -> (r: Option<String>)
        ensures
            match r {
                Some(s) => response_body_of(*self) == Some(s@),
                None => response_body_of(*self) is None,
            },
    {
        match &self.response_event {
            Some(re) => match &re.event {
                Some(TrafficEventKind::Response(res)) => {
                    let b = shown_body_string(&res.body);
                    if b.is_some() {
                        return b;
                    }
                },
                _ => {},
            },
            None => {},
        }
        match &self.inner_event.event {
            Some(TrafficEventKind::Response(res)) => shown_body_string(&res.body),
            _ => None,
        }
    }
}

// ---------------------------------------------------------------------------
// Settings
// ---------------------------------------------------------------------------

/// The scope settings for the API.
#[derive(Debug)]
pub struct ScopeConfigGql {
    pub enabled: bool,
    pub include_patterns: Vec<String>,
    pub exclude_patterns: Vec<String>,
    pub use_regex: bool,
}

impl ScopeConfigGql {
    /// The API view of the scope settings.
    pub fn from_config(c: ScopeConfig) -> (r: ScopeConfigGql)
        ensures
            r.enabled == c.enabled && r.include_patterns == c.include_patterns && r.exclude_patterns
                == c.exclude_patterns && r.use_regex == c.use_regex,
    {
        ScopeConfigGql {
            enabled: c.enabled,
            include_patterns: c.include_patterns,
            exclude_patterns: c.exclude_patterns,
            use_regex: c.use_regex,
        }
    }
}

/// New scope settings from the API.
#[derive(Debug)]
pub struct ScopeInputGql {
    pub enabled: bool,
    pub include_patterns: Vec<String>,
    pub exclude_patterns: Vec<String>,
    pub use_regex: bool,
}

impl ScopeInputGql {
    /// The scope settings this input gives.
    pub fn to_scope_config(self) -> (r: ScopeConfig)
        ensures
            r.enabled == self.enabled && r.include_patterns == self.include_patterns && r.exclude_patterns
                == self.exclude_patterns && r.use_regex == self.use_regex,
    {
        ScopeConfig {
            enabled: self.enabled,
            include_patterns: self.include_patterns,
            exclude_patterns: self.exclude_patterns,
            use_regex: self.use_regex,
        }
    }
}

/// An interception rule for the API: its condition and action by kind only.
#[derive(Debug)]
pub struct InterceptionRuleGql {
    pub id: String,
    pub enabled: bool,
    pub name: String,
    pub condition_type: String,
    pub action_type: String,
}

/// The name of a condition's kind.
pub open spec fn condition_kind(c: RuleCondition) -> Seq<char> {
    match c {
        RuleCondition::Method { .. } => "Method"@,
        RuleCondition::UrlContains { .. } => "UrlContains"@,
        RuleCondition::HeaderMatch { .. } => "HeaderMatch"@,
        RuleCondition::All => "All"@,
    }
}

/// The name of an action.
pub open spec fn action_kind(a: RuleAction) -> Seq<char> {
    match a {
        RuleAction::Pause => "Pause"@,
        RuleAction::Drop => "Drop"@,
        RuleAction::Modify => "Modify"@,
    }
}

impl InterceptionRuleGql {
    /// The API view of an interception rule.
    pub fn from_rule(r: InterceptionRule) -> (g: InterceptionRuleGql)
        ensures
            g.id == r.id && g.enabled == r.enabled && g.name == r.name,
            g.condition_type@ == condition_kind(r.condition),
            g.action_type@ == action_kind(r.action),
    {
        let condition_type = match r.condition {
            RuleCondition::Method { .. } => owned("Method"),
            RuleCondition::UrlContains { .. } => owned("UrlContains"),
            RuleCondition::HeaderMatch { .. } => owned("HeaderMatch"),
            RuleCondition::All => owned("All"),
        };
        let action_type = match r.action {
            RuleAction::Pause => owned("Pause"),
            RuleAction::Drop => owned("Drop"),
            RuleAction::Modify => owned("Modify"),
        };
        InterceptionRuleGql { id: r.id, enabled: r.enabled, name: r.name, condition_type, action_type }
    }
}

/// The interception settings for the API.
#[derive(Debug)]
pub struct InterceptionConfigGql {
    pub enabled: bool,
    pub rules: Vec<InterceptionRuleGql>,
}

impl InterceptionConfigGql {
    /// The API view of the interception settings, rule by rule.
    pub fn from_config(c: InterceptionConfig) -> (g: InterceptionConfigGql)
        ensures
            g.enabled == c.enabled,
            g.rules@.len() == c.rules@.len(),
            forall|i: int|
                0 <= i < g.rules@.len() ==> {
                    let r = c.rules@[i];
                    let x = #[trigger] g.rules@[i];
                    &&& x.id == r.id && x.enabled == r.enabled && x.name == r.name
                    &&& x.condition_type@ == condition_kind(r.condition)
                    &&& x.action_type@ == action_kind(r.action)
                },
    {
        let ghost all = c.rules@;
        let mut rules = c.rules;
        let mut rev: Vec<InterceptionRuleGql> = Vec::new();
        while rules.len() > 0
            invariant
                rules@.len() + rev@.len() == all.len(),
                forall|t: int| 0 <= t < rules@.len() ==> rules@[t] == all[t],
                forall|t: int|
                    0 <= t < rev@.len() ==> {
                        let r = all[all.len() - 1 - t];
                        let x = #[trigger] rev@[t];
                        &&& x.id == r.id && x.enabled == r.enabled && x.name == r.name
                        &&& x.condition_type@ == condition_kind(r.condition)
                        &&& x.action_type@ == action_kind(r.action)
                    },
            decreases rules.len(),
        {
            let r = rules.pop().unwrap();
            rev.push(InterceptionRuleGql::from_rule(r));
        }
        let mut out: Vec<InterceptionRuleGql> = Vec::new();
        while rev.len() > 0
            invariant
                out@.len() + rev@.len() == all.len(),
                forall|t: int|
                    0 <= t < rev@.len() ==> {
                        let r = all[all.len() - 1 - t];
                        let x = #[trigger] rev@[t];
                        &&& x.id == r.id && x.enabled == r.enabled && x.name == r.name
                        &&& x.condition_type@ == condition_kind(r.condition)
                        &&& x.action_type@ == action_kind(r.action)
                    },
                forall|t: int|
                    0 <= t < out@.len() ==> {
                        let r = all[t];
                        let x = #[trigger] out@[t];
                        &&& x.id == r.id && x.enabled == r.enabled && x.name == r.name
                        &&& x.condition_type@ == condition_kind(r.condition)
                        &&& x.action_type@ == action_kind(r.action)
                    },
            decreases rev.len(),
        {
            let x = rev.pop().unwrap();
            out.push(x);
        }
        InterceptionConfigGql { enabled: c.enabled, rules: out }
    }
}

/// All project settings for the API.
#[derive(Debug)]
pub struct ProjectSettingsGql {
    pub scope: ScopeConfigGql,
    pub interception: InterceptionConfigGql,
}

/// A new interception rule from the API.
#[derive(Debug)]
pub struct InterceptionRuleInputGql {
    pub name: String,
    pub enabled: bool,
    pub condition_type: String,
    pub condition_value: String,
    pub action_type: String,
}

/// `uuid::Uuid::new_v4()` as a number: a fresh random id. Of its value only
/// the fixed bits of a version 4 UUID are stated: the version nibble is 4 and
/// the variant bits are `10` (RFC 4122); the other bits are random.
#[verifier::external_body]
fn random_uuid() -> (r: u128)
    ensures
        (r >> 76u128) & 0xfu128 == 4,
        (r >> 62u128) & 0x3u128 == 2,
{
    uuid::Uuid::new_v4().as_u128()
}

/// The condition an input asks for: `Method` with the comma-separated methods
/// (each trimmed), `UrlContains` with the value, and `All` for anything else.
pub open spec fn input_condition_ok(c: RuleCondition, kind: Seq<char>, value: Seq<char>) -> bool {
    if kind == "Method"@ {
        c matches RuleCondition::Method { methods } && methods@.len() == split_on(value, ',').len() && forall|i: int|
            0 <= i < methods@.len() ==> (#[trigger] methods@[i])@ == trimmed(split_on(value, ',')[i])
    } else if kind == "UrlContains"@ {
        c matches RuleCondition::UrlContains { pattern } && pattern@ == value
    } else {
        c matches RuleCondition::All
    }
}

/// The action an input asks for: `Drop`, `Modify`, and `Pause` for anything else.
pub open spec fn input_action(kind: Seq<char>) -> RuleAction {
    if kind == "Drop"@ {
        RuleAction::Drop
    } else if kind == "Modify"@ {
        RuleAction::Modify
    } else {
        RuleAction::Pause
    }
}

impl InterceptionRuleInputGql {
    /// The rule this input describes, under a fresh random id.
    pub fn to_interception_rule(self) -> (r: InterceptionRule)
        ensures
            r.enabled == self.enabled && r.name == self.name,
            input_condition_ok(r.condition, self.condition_type@, self.condition_value@),
            r.action == input_action(self.action_type@),
            exists|id: u128| r.id@ == uuid_text(id),
    {
        let ghost value0 = self.condition_value@;
        let condition = if str_eq(self.condition_type.as_str(), "Method") {
            let v = chars_of(self.condition_value.as_str());
            let parts = split_chars(v.as_slice(), ',');
            let mut methods: Vec<String> = Vec::new();
            let mut i: usize = 0;
            while i < parts.len()
                invariant
                    i <= parts@.len(),
                    v@ == value0,
                    parts@.len() == split_on(value0, ',').len(),
                    forall|k: int| 0 <= k < parts@.len() ==> (#[trigger] parts@[k])@ == split_on(value0, ',')[k],
                    methods@.len() == i,
                    forall|k: int| 0 <= k < i ==> (#[trigger] methods@[k])@ == trimmed(split_on(value0, ',')[k]),
                decreases parts.len() - i,
            {
                let p = string_of(parts[i].as_slice());
                methods.push(trim_text(p.as_str()));
                i = i + 1;
            }
            RuleCondition::Method { methods }
        } else if str_eq(self.condition_type.as_str(), "UrlContains") {
            RuleCondition::UrlContains { pattern: self.condition_value }
        } else {
            RuleCondition::All
        };
        let action = if str_eq(self.action_type.as_str(), "Drop") {
            RuleAction::Drop
        } else if str_eq(self.action_type.as_str(), "Modify") {
            RuleAction::Modify
        } else {
            RuleAction::Pause
        };
        let n = random_uuid();
        let id = uuid_string(n);
        InterceptionRule { id, enabled: self.enabled, name: self.name, condition, action }
    }
}

// ---------------------------------------------------------------------------
// Repeater
// ---------------------------------------------------------------------------

/// `String::from_utf8`: the text the bytes encode when they are valid UTF-8
/// (`vstd::utf8::valid_utf8`, decoded as `vstd::utf8::decode_utf8` reads them),
/// `None` when they are not.
#[verifier::external_body]
pub fn decode_utf8(bytes: &Vec<u8>) -> (r: Option<String>)
    ensures
        r is Some <==> vstd::utf8::valid_utf8(bytes@),
        r matches Some(s) ==> s@ == vstd::utf8::decode_utf8(bytes@),
{
    match String::from_utf8(bytes.clone()) {
        Ok(s) => Some(s),
        Err(_) => None,
    }
}

/// The character of a 6-bit value in the standard base64 alphabet
/// (`A`..`Z`, `a`..`z`, `0`..`9`, `+`, `/`).
pub open spec fn b64_char(v: int) -> char {
    if v < 26 {
        (65 + v) as char
    } else if v < 52 {
        (97 + v - 26) as char
    } else if v < 62 {
        (48 + v - 52) as char
    } else if v == 62 {
        '+'
    } else {
        '/'
    }
}

/// The standard base64 encoding of some bytes: each group of three bytes gives
/// four characters of six bits each, and a last group of one or two bytes is
/// padded with `=` to four characters.
pub open spec fn base64_text(b: Seq<u8>) -> Seq<char>
    decreases b.len(),
{
    if b.len() == 0 {
        Seq::empty()
    } else if b.len() == 1 {
        seq![b64_char(b[0] as int / 4), b64_char((b[0] as int % 4) * 16), '=', '=']
    } else if b.len() == 2 {
        seq![
            b64_char(b[0] as int / 4),
            b64_char((b[0] as int % 4) * 16 + b[1] as int / 16),
            b64_char((b[1] as int % 16) * 4),
            '=',
        ]
    } else {
        seq![
            b64_char(b[0] as int / 4),
            b64_char((b[0] as int % 4) * 16 + b[1] as int / 16),
            b64_char((b[1] as int % 16) * 4 + b[2] as int / 64),
            b64_char(b[2] as int % 64),
        ] + base64_text(b.subrange(3, b.len() as int))
    }
}

/// `base64::engine::general_purpose::STANDARD.encode`: the standard alphabet
/// with padding, as `base64_text` states it.
#[verifier::external_body]
pub fn encode_base64(bytes: &Vec<u8>) -> (r: String)
    ensures
        r@ == base64_text(bytes@),
{
    base64::engine::general_purpose::STANDARD.encode(bytes)
}

/// A body shown as text: the text itself when it is UTF-8, its base64 encoding
/// otherwise.
pub open spec fn body_text(bytes: Seq<u8>) -> Seq<char> {
    if vstd::utf8::valid_utf8(bytes) {
        vstd::utf8::decode_utf8(bytes)
    } else {
        base64_text(bytes)
    }
}

fn body_string(bytes: &Vec<u8>) -> (r: String)
    ensures
        r@ == body_text(bytes@),
{
    match decode_utf8(bytes) {
        Some(s) => s,
        None => encode_base64(bytes),
    }
}

/// A request template for the API.
#[derive(Debug)]
pub struct HttpRequestTemplateGql {
    pub method: String,
    pub url: String,
    pub body: String,
    pub headers: Option<Vec<(String, String)>>,
}

impl HttpRequestTemplateGql {
    /// The API view of a request.
    pub fn from_request(request: HttpRequestData) -> (r: HttpRequestTemplateGql)
        ensures
            r.method == request.method && r.url == request.url,
            r.body@ == body_text(request.body@),
            r.headers == (match request.headers {
                Some(h) => Some(h.headers),
                None => None,
            }),
    {
        let body = body_string(&request.body);
        let headers = match request.headers {
            Some(h) => Some(h.headers),
            None => None,
        };
        HttpRequestTemplateGql { method: request.method, url: request.url, body, headers }
    }
}

/// A response for the API.
#[derive(Debug)]
pub struct HttpResponseDataGql {
    pub status_code: i32,
    pub body: String,
    pub body_length: i32,
    pub headers: Option<Vec<(String, String)>>,
}

impl HttpResponseDataGql {
    /// The API view of a response.
    pub fn from_response(response: HttpResponseData) -> (r: HttpResponseDataGql)
        ensures
            r.status_code == response.status_code,
            r.body@ == body_text(response.body@),
            r.body_length == response.body@.len() as i32,
            r.headers == (match response.headers {
                Some(h) => Some(h.headers),
                None => None,
            }),
    {
        let body = body_string(&response.body);
        let len = response.body.len() as i32;
        let headers = match response.headers {
            Some(h) => Some(h.headers),
            None => None,
        };
        HttpResponseDataGql { status_code: response.status_code, body, body_length: len, headers }
    }
}

/// The RFC 3339 text chrono gives for a time in milliseconds since the epoch
/// (the epoch itself for a time it cannot represent).
pub uninterp spec fn rfc3339_of_millis(ms: i64) -> Seq<char>;

/// `chrono::DateTime::from_timestamp_millis(ms).unwrap_or_default().to_rfc3339()`:
/// the text is named by `rfc3339_of_millis`.
#[verifier::external_body]
pub fn millis_to_rfc3339(ms: i64) -> (r: String)
    ensures
        r@ == rfc3339_of_millis(ms),
{
    chrono::DateTime::from_timestamp_millis(ms).unwrap_or_default().to_rfc3339()
}

/// The API view of a request's headers: the same pairs.
pub open spec fn headers_shown(h: Option<HttpHeaders>, shown: Option<Vec<(String, String)>>) -> bool {
    match h {
        Some(x) => shown matches Some(v) && v@ == x.headers@,
        None => shown is None,
    }
}

/// A repeater tab for the API; its request template is converted when asked for.
#[derive(Debug)]
pub struct RepeaterTabGql {
    pub id: String,
    pub name: String,
    pub target_agent_id: Option<String>,
    pub created_at: String,
    pub updated_at: String,
    pub is_active: bool,
    pub validation_status: String,
    pub request_template: HttpRequestData,
}

impl RepeaterTabGql {
    /// The API view of a repeater tab.
    pub fn from_config(config: RepeaterTabConfig) -> (r: RepeaterTabGql)
        ensures
            r.id == config.id && r.name == config.name && r.target_agent_id == config.target_agent_id
                && r.is_active == config.is_active && r.request_template == config.request_template,
            r.created_at@ == rfc3339_of_millis(config.created_at),
            r.updated_at@ == rfc3339_of_millis(config.updated_at),
            r.validation_status@ == validation_status_text(config.validation_status),
    {
        let validation_status = validation_status_string(&config.validation_status);
        RepeaterTabGql {
            id: config.id,
            name: config.name,
            target_agent_id: config.target_agent_id,
            created_at: millis_to_rfc3339(config.created_at),
            updated_at: millis_to_rfc3339(config.updated_at),
            is_active: config.is_active,
            validation_status,
            request_template: config.request_template,
        }
    }

    /// The tab's request template for the API.
    pub fn request_template(&self) -> (r: HttpRequestTemplateGql)
        ensures
            r.method == self.request_template.method && r.url == self.request_template.url,
            r.body@ == body_text(self.request_template.body@),
            headers_shown(self.request_template.headers, r.headers),
    {
        HttpRequestTemplateGql::from_request(self.request_template.duplicate())
    }
}

/// A repeater execution for the API; its request and response are converted
/// when asked for.
#[derive(Debug)]
pub struct RepeaterExecutionGql {
    pub id: String,
    pub tab_id: String,
    pub agent_id: String,
    pub duration_ms: Option<i32>,
    pub status_code: Option<i32>,
    pub executed_at: String,
    pub error: Option<String>,
    pub request_data: HttpRequestData,
    pub response_data: Option<HttpResponseData>,
}

impl RepeaterExecutionGql {
    /// The API view of an execution (the duration narrowed to `i32` as a cast does).
    pub fn from_execution(e: RepeaterExecutionResponse) -> (r: RepeaterExecutionGql)
        ensures
            r.id == e.execution_id && r.tab_id == e.tab_id && r.agent_id == e.agent_id && r.status_code == e.status_code
                && r.error == e.error && r.request_data == e.request_data && r.response_data == e.response_data,
            r.duration_ms == (match e.duration_ms {
                Some(d) => Some(d as i32),
                None => None,
            }),
            r.executed_at@ == rfc3339_of_millis(e.executed_at),
    {
        let duration_ms = match e.duration_ms {
            Some(d) => Some(d as i32),
            None => None,
        };
        RepeaterExecutionGql {
            id: e.execution_id,
            tab_id: e.tab_id,
            agent_id: e.agent_id,
            duration_ms,
            status_code: e.status_code,
            executed_at: millis_to_rfc3339(e.executed_at),
            error: e.error,
            request_data: e.request_data,
            response_data: e.response_data,
        }
    }

    /// The executed request for the API.
    pub fn request_data(&self) -> (r: HttpRequestTemplateGql)
        ensures
            r.method == self.request_data.method && r.url == self.request_data.url,
            r.body@ == body_text(self.request_data.body@),
            headers_shown(self.request_data.headers, r.headers),
    {
        HttpRequestTemplateGql::from_request(self.request_data.duplicate())
    }

    /// The response for the API, if one came back.
    pub fn response_data(&self) -> (r: Option<HttpResponseDataGql>)
        ensures
            match self.response_data {
                Some(res) => r matches Some(g) && g.status_code == res.status_code && g.body@ == body_text(res.body@)
                    && g.body_length == res.body@.len() as i32 && headers_shown(res.headers, g.headers),
                None => r is None,
            },
    {
        match &self.response_data {
            Some(res) => Some(HttpResponseDataGql::from_response(res.duplicate())),
            None => None,
        }
    }
}

/// A request template from the API; the headers are a JSON object of strings.
#[derive(Debug)]
pub struct HttpRequestTemplateInput {
    pub method: String,
    pub url: String,
    pub headers: Option<String>,
    pub body: String,
}

/// The name/value pairs of a JSON object whose values are all strings, in key
/// order (a later duplicate key wins), as `serde_json` reads it; `None` for any
/// other text.
pub uninterp spec fn json_string_pairs(s: Seq<char>) -> Option<Seq<(Seq<char>, Seq<char>)>>;

/// `serde_json::from_str::<BTreeMap<String, String>>`, its pairs in key order:
/// the result is named by `json_string_pairs`.
#[verifier::external_body]
pub fn parse_json_string_pairs(s: &str) -> (r: Option<Vec<(String, String)>>)
    ensures
        match r {
            Some(v) => json_string_pairs(s@) == Some(v@.map_values(|p: (String, String)| (p.0@, p.1@))),
            None => json_string_pairs(s@) is None,
        },
{
    match serde_json::from_str::<std::collections::BTreeMap<String, String>>(s) {
        Ok(m) => Some(m.into_iter().collect()),
        Err(_) => None,
    }
}

/// The bytes of a string (its UTF-8 encoding).
pub open spec fn utf8_bytes(s: Seq<char>) -> Seq<u8> {
    vstd::utf8::encode_utf8(s)
}

impl HttpRequestTemplateInput {
    /// The request this input describes: headers that do not parse as a JSON
    /// object of strings are dropped, and the body is the text's bytes.
    pub fn to_request(self) -> (r: HttpRequestData)
        ensures
            r.method == self.method && r.url == self.url,
            r.body@ == utf8_bytes(self.body@),
            match self.headers {
                Some(h) => match json_string_pairs(h@) {
                    Some(p) => r.headers matches Some(hs) && hs.headers@.map_values(|q: (String, String)| (q.0@, q.1@)) == p,
                    None => r.headers is None,
                },
                None => r.headers is None,
            },
    {
        let headers = match &self.headers {
            Some(h) => match parse_json_string_pairs(h.as_str()) {
                Some(v) => Some(HttpHeaders { headers: v }),
                None => None,
            },
            None => None,
        };
        let bytes = self.body.as_str().as_bytes();
        let mut body: Vec<u8> = Vec::new();
        let mut i: usize = 0;
        while i < bytes.len()
            invariant
                i <= bytes@.len(),
                body@ == bytes@.subrange(0, i as int),
            decreases bytes.len() - i,
        {
            body.push(bytes[i]);
            i = i + 1;
        }
        proof {
            assert(bytes@.subrange(0, bytes@.len() as int) =~= bytes@);
        }
        HttpRequestData { method: self.method, url: self.url, headers, body }
    }
}

/// Input for creating a repeater tab.
#[derive(Debug)]
pub struct CreateRepeaterTabInput {
    pub name: String,
    pub request_template: HttpRequestTemplateInput,
    pub target_agent_id: Option<String>,
}

/// Input for updating a repeater tab.
#[derive(Debug)]
pub struct UpdateRepeaterTabInput {
    pub name: Option<String>,
    pub request_template: Option<HttpRequestTemplateInput>,
    pub target_agent_id: Option<String>,
}

/// How to proceed when a session has expired: `Fail`,
/// `ContinueWithoutSession`, `AttemptRefresh` (with a profile) or `UseFallback`
/// (with a session).
#[derive(Debug)]
pub struct ExpirationHandlingInput {
    pub strategy: String,
    pub profile_id: Option<String>,
    pub fallback_session_id: Option<String>,
}

/// Input for executing a repeater request.
#[derive(Debug)]
pub struct ExecuteRepeaterRequestInput {
    pub tab_id: String,
    pub request_data: HttpRequestTemplateInput,
    pub target_agent_id: String,
    pub session_id: Option<String>,
    pub expiration_handling: Option<ExpirationHandlingInput>,
}

// ---------------------------------------------------------------------------
// Intruder
// ---------------------------------------------------------------------------

/// The RFC 3339 text chrono gives for a time in seconds since the epoch (the
/// epoch itself for a time it cannot represent).
pub uninterp spec fn rfc3339_of_secs(secs: i64) -> Seq<char>;

/// `chrono::DateTime::from_timestamp(secs, 0).unwrap_or_default().to_rfc3339()`:
/// the text is named by `rfc3339_of_secs`.
#[verifier::external_body]
pub fn secs_to_rfc3339(secs: i64) -> (r: String)
    ensures
        r@ == rfc3339_of_secs(secs),
{
    chrono::DateTime::from_timestamp(secs, 0).unwrap_or_default().to_rfc3339()
}

/// The strings of a JSON array of strings, as `serde_json` reads it; `None` for
/// any other text.
pub uninterp spec fn json_string_list(s: Seq<char>) -> Option<Seq<Seq<char>>>;

/// `serde_json::from_str::<Vec<String>>`: the result is named by `json_string_list`.
#[verifier::external_body]
pub fn parse_json_string_list(s: &str) -> (r: Option<Vec<String>>)
    ensures
        match r {
            Some(v) => json_string_list(s@) == Some(v@.map_values(|x: String| x@)),
            None => json_string_list(s@) is None,
        },
{
    match serde_json::from_str::<Vec<String>>(s) {
        Ok(v) => Some(v),
        Err(_) => None,
    }
}

/// An intruder attack for the API.
#[derive(Debug)]
pub struct IntruderAttackGql {
    pub id: String,
    pub name: String,
    pub attack_mode: String,
    pub target_agents: Vec<String>,
    pub distribution_strategy: String,
    pub created_at: String,
    pub updated_at: String,
    pub status: String,
    pub request_template: String,
    pub payload_sets_json: String,
}

impl IntruderAttackGql {
    /// The API view of a stored attack; target agents that do not parse become
    /// an empty list.
    pub fn from_attack(a: IntruderAttack) -> (r: IntruderAttackGql)
        ensures
            r.id == a.id && r.name == a.name && r.attack_mode == a.attack_mode && r.distribution_strategy
                == a.distribution_strategy && r.status == a.status && r.request_template == a.request_template
                && r.payload_sets_json == a.payload_sets,
            r.target_agents@.map_values(|x: String| x@) == (match json_string_list(a.target_agents@) {
                Some(v) => v,
                None => Seq::empty(),
            }),
            r.created_at@ == rfc3339_of_secs(a.created_at),
            r.updated_at@ == rfc3339_of_secs(a.updated_at),
    {
        let targets = match parse_json_string_list(a.target_agents.as_str()) {
            Some(v) => v,
            None => {
                let v: Vec<String> = Vec::new();
                proof {
                    assert(v@.map_values(|x: String| x@) =~= Seq::<Seq<char>>::empty());
                }
                v
            },
        };
        let created_at = secs_to_rfc3339(a.created_at);
        let updated_at = secs_to_rfc3339(a.updated_at);
        IntruderAttackGql {
            id: a.id,
            name: a.name,
            attack_mode: a.attack_mode,
            target_agents: targets,
            distribution_strategy: a.distribution_strategy,
            created_at,
            updated_at,
            status: a.status,
            request_template: a.request_template,
            payload_sets_json: a.payload_sets,
        }
    }
}

/// One attack result for the API.
#[derive(Debug)]
pub struct IntruderResultGql {
    pub id: String,
    pub attack_id: String,
    pub agent_id: String,
    pub executed_at: String,
    pub duration_ms: Option<i32>,
    pub status_code: Option<i32>,
    pub response_length: Option<i32>,
    pub is_highlighted: bool,
    pub request_data_json: String,
    pub response_data_json: Option<String>,
    pub payload_values_json: String,
}

impl IntruderResultGql {
    /// The API view of a stored result (numbers narrowed to `i32` as casts do).
    pub fn from_result(r: IntruderResult) -> (g: IntruderResultGql)
        ensures
            g.id == r.id && g.attack_id == r.attack_id && g.agent_id == r.agent_id && g.status_code == r.status_code
                && g.is_highlighted == r.is_highlighted && g.request_data_json == r.request_data && g.response_data_json
                == r.response_data && g.payload_values_json == r.payload_values,
            g.executed_at@ == rfc3339_of_secs(r.executed_at),
            g.duration_ms == (match r.duration_ms {
                Some(d) => Some(d as i32),
                None => None,
            }),
            g.response_length == (match r.response_length {
                Some(l) => Some(l as i32),
                None => None,
            }),
    {
        let executed_at = secs_to_rfc3339(r.executed_at);
        let duration_ms = match r.duration_ms {
            Some(d) => Some(d as i32),
            None => None,
        };
        let response_length = match r.response_length {
            Some(l) => Some(l as i32),
            None => None,
        };
        IntruderResultGql {
            id: r.id,
            attack_id: r.attack_id,
            agent_id: r.agent_id,
            executed_at,
            duration_ms,
            status_code: r.status_code,
            response_length,
            is_highlighted: r.is_highlighted,
            request_data_json: r.request_data,
            response_data_json: r.response_data,
            payload_values_json: r.payload_values,
        }
    }
}

/// A payload set for the API.
#[derive(Debug)]
pub struct PayloadSetGql {
    pub id: String,
    pub name: String,
    pub payload_type: String,
    pub created_at: String,
    pub configuration_json: String,
}

impl PayloadSetGql {
    /// The API view of a stored payload set.
    pub fn from_set(s: PayloadSet) -> (g: PayloadSetGql)
        ensures
            g.id == s.id && g.name == s.name && g.payload_type == s.payload_type && g.configuration_json
                == s.configuration,
            g.created_at@ == rfc3339_of_secs(s.created_at),
    {
        let created_at = secs_to_rfc3339(s.created_at);
        PayloadSetGql {
            id: s.id,
            name: s.name,
            payload_type: s.payload_type,
            created_at,
            configuration_json: s.configuration,
        }
    }
}

/// A payload configuration for the API: its kind and its settings as JSON.
#[derive(Debug)]
pub struct PayloadConfigGql {
    pub config_type: String,
    pub config_data: String,
}

/// A payload set of an attack for the API.
#[derive(Debug)]
pub struct PayloadSetConfigGql {
    pub id: String,
    pub name: String,
    pub position_index: i32,
    pub configuration: PayloadConfigGql,
}

/// A payload configuration from the API: `wordlist`, `number_range` or `custom`,
/// with its settings as JSON.
#[derive(Debug)]
pub struct PayloadConfigInput {
    pub config_type: String,
    pub config_data: String,
}

/// A payload set of a new attack from the API.
#[derive(Debug)]
pub struct PayloadSetConfigInput {
    pub id: String,
    pub name: String,
    pub position_index: i32,
    pub configuration: PayloadConfigInput,
}

/// The text parses as JSON (`serde_json::from_str::<serde_json::Value>`).
pub uninterp spec fn json_parses(s: Seq<char>) -> bool;

/// What `Value::as_str` gives for the member `key` of the JSON text `s`; `None`
/// when the text does not parse, is no object, lacks the member or holds no
/// string there.
pub uninterp spec fn json_str_field(s: Seq<char>, key: Seq<char>) -> Option<Seq<char>>;

/// What `Value::as_i64` gives for the member `key` of the JSON text `s`; `None`
/// when the text does not parse, is no object, lacks the member or holds no
/// integer in the range of `i64` there.
pub uninterp spec fn json_i64_field(s: Seq<char>, key: Seq<char>) -> Option<i64>;

/// The items of the array at member `key` of the JSON text `s`, each as
/// `Value::as_str` gives it; `None` when there is no such array.
pub uninterp spec fn json_array_items(s: Seq<char>, key: Seq<char>) -> Option<Seq<Option<Seq<char>>>>;

/// `serde_json::from_str::<serde_json::Value>(s).is_ok()`, named by `json_parses`.
#[verifier::external_body]
fn json_text_parses(s: &str) -> (r: bool)
    ensures
        r == json_parses(s@),
{
    serde_json::from_str::<serde_json::Value>(s).is_ok()
}

/// `value[key].as_str()` of the parsed text, named by `json_str_field`.
#[verifier::external_body]
fn json_str_member(s: &str, key: &str) -> (r: Option<String>)
    ensures
        match r {
            Some(v) => json_str_field(s@, key@) == Some(v@),
            None => json_str_field(s@, key@) is None,
        },
{
    match serde_json::from_str::<serde_json::Value>(s) {
        Ok(v) => v[key].as_str().map(String::from),
        Err(_) => None,
    }
}

/// `value[key].as_i64()` of the parsed text, named by `json_i64_field`.
#[verifier::external_body]
fn json_i64_member(s: &str, key: &str) -> (r: Option<i64>)
    ensures
        r == json_i64_field(s@, key@),
{
    match serde_json::from_str::<serde_json::Value>(s) {
        Ok(v) => v[key].as_i64(),
        Err(_) => None,
    }
}

/// `value[key].as_array()` of the parsed text with each item taken by
/// `as_str`, named by `json_array_items`.
#[verifier::external_body]
fn json_array_member(s: &str, key: &str) -> (r: Option<Vec<Option<String>>>)
    ensures
        match r {
            Some(v) => json_array_items(s@, key@) == Some(v@.map_values(|x: Option<String>| opt_text(x))),
            None => json_array_items(s@, key@) is None,
        },
{
    match serde_json::from_str::<serde_json::Value>(s) {
        Ok(v) => v[key].as_array().map(|a| a.iter().map(|x| x.as_str().map(String::from)).collect()),
        Err(_) => None,
    }
}

/// An optional string as an optional character sequence.
pub open spec fn opt_text(o: Option<String>) -> Option<Seq<char>> {
    match o {
        Some(s) => Some(s@),
        None => None,
    }
}

/// The text, or `d` when there is none.
pub open spec fn text_or(o: Option<Seq<char>>, d: Seq<char>) -> Seq<char> {
    match o {
        Some(t) => t,
        None => d,
    }
}

/// The number, or `d` when there is none.
pub open spec fn i64_or(o: Option<i64>, d: i64) -> i64 {
    match o {
        Some(n) => n,
        None => d,
    }
}

/// The items that are strings, in order.
pub open spec fn present_items(items: Seq<Option<Seq<char>>>) -> Seq<Seq<char>>
    decreases items.len(),
{
    if items.len() == 0 {
        Seq::empty()
    } else {
        let rest = present_items(items.drop_last());
        match items.last() {
            Some(t) => rest.push(t),
            None => rest,
        }
    }
}

/// The payload configuration of kind `ty` with JSON settings `data`: a word list
/// (file path `""` and encoding `"utf-8"` by default), a number range (1 to 100
/// by 1, format `"{}"` by default) or the strings of the `values` array; an
/// empty custom list for another kind, settings that do not parse, or custom
/// settings without a `values` array.
pub open spec fn payload_config_of(ty: Seq<char>, data: Seq<char>) -> PayloadConfigView {
    if ty == "wordlist"@ && json_parses(data) {
        PayloadConfigView::Wordlist {
            file_path: text_or(json_str_field(data, "file_path"@), ""@),
            encoding: text_or(json_str_field(data, "encoding"@), "utf-8"@),
        }
    } else if ty == "number_range"@ && json_parses(data) {
        PayloadConfigView::NumberRange {
            start: i64_or(json_i64_field(data, "start"@), 1),
            end: i64_or(json_i64_field(data, "end"@), 100),
            step: i64_or(json_i64_field(data, "step"@), 1),
            format: text_or(json_str_field(data, "format"@), "{}"@),
        }
    } else if ty == "custom"@ && json_parses(data) && json_array_items(data, "values"@) is Some {
        PayloadConfigView::Custom { values: present_items(json_array_items(data, "values"@).unwrap()) }
    } else {
        PayloadConfigView::Custom { values: Seq::empty() }
    }
}

fn text_or_default(o: Option<String>, d: &str) -> (r: String)
    ensures
        r@ == text_or(opt_text(o), d@),
{
    match o {
        Some(s) => s,
        None => owned(d),
    }
}

fn string_items(items: Vec<Option<String>>) -> (r: Vec<String>)
    ensures
        r@.map_values(|v: String| v@) == present_items(items@.map_values(|x: Option<String>| opt_text(x))),
{
    let ghost all = items@.map_values(|x: Option<String>| opt_text(x));
    let mut out: Vec<String> = Vec::new();
    let mut i: usize = 0;
    proof {
        assert(out@.map_values(|v: String| v@) =~= present_items(all.take(0)));
    }
    while i < items.len()
        invariant
            i <= items@.len(),
            all == items@.map_values(|x: Option<String>| opt_text(x)),
            out@.map_values(|v: String| v@) == present_items(all.take(i as int)),
        decreases items.len() - i,
    {
        proof {
            assert(all.take(i + 1).drop_last() =~= all.take(i as int));
            assert(all.take(i + 1).last() == opt_text(items@[i as int]));
        }
        let ghost before = out@;
        match &items[i] {
            Some(t) => {
                out.push(t.clone());
                proof {
                    assert(out@.map_values(|v: String| v@) =~= before.map_values(|v: String| v@).push(t@));
                }
            },
            None => {},
        }
        i = i + 1;
    }
    proof {
        assert(all.take(items@.len() as int) =~= all);
    }
    out
}

/// The payload configuration an API input describes (see `payload_config_of`).
pub fn payload_config_from_input(input: PayloadConfigInput) -> (r: PayloadConfig)
    ensures
        r@ == payload_config_of(input.config_type@, input.config_data@),
{
    let data = input.config_data.as_str();
    let ty = input.config_type.as_str();
    if str_eq(ty, "wordlist") {
        if json_text_parses(data) {
            let file_path = text_or_default(json_str_member(data, "file_path"), "");
            let encoding = text_or_default(json_str_member(data, "encoding"), "utf-8");
            return PayloadConfig::Wordlist { file_path, encoding };
        }
    } else if str_eq(ty, "number_range") {
        if json_text_parses(data) {
            let start = match json_i64_member(data, "start") {
                Some(n) => n,
                None => 1,
            };
            let end = match json_i64_member(data, "end") {
                Some(n) => n,
                None => 100,
            };
            let step = match json_i64_member(data, "step") {
                Some(n) => n,
                None => 1,
            };
            let format = text_or_default(json_str_member(data, "format"), "{}");
            return PayloadConfig::NumberRange { start, end, step, format };
        }
    } else if str_eq(ty, "custom") {
        if json_text_parses(data) {
            match json_array_member(data, "values") {
                Some(items) => {
                    let values = string_items(items);
                    return PayloadConfig::Custom { values };
                },
                None => {},
            }
        }
    }
    let empty: Vec<String> = Vec::new();
    proof {
        assert(empty@.map_values(|v: String| v@) =~= Seq::<Seq<char>>::empty());
    }
    PayloadConfig::Custom { values: empty }
}

/// The payload set an API input describes; a negative position wraps as the
/// cast to `usize` does.
pub fn payload_set_from_input(input: PayloadSetConfigInput) -> (r: PayloadSetConfig)
    ensures
        r.id == input.id,
        r.name == input.name,
        r.position_index == input.position_index as usize,
        r.payload_config@ == payload_config_of(input.configuration.config_type@, input.configuration.config_data@),
{
    let position_index = input.position_index as usize;
    let payload_config = payload_config_from_input(input.configuration);
    PayloadSetConfig { id: input.id, name: input.name, position_index, payload_config }
}

/// The attack mode of a new attack: `sniper`, `battering_ram`, `pitchfork` or
/// `cluster_bomb`.
#[derive(Debug)]
pub struct AttackModeInput {
    pub mode_type: String,
}

/// The attack mode an input names (sniper for anything unknown).
pub open spec fn input_mode(s: Seq<char>) -> AttackMode {
    if s == "battering_ram"@ {
        AttackMode::BatteringRam
    } else if s == "pitchfork"@ {
        AttackMode::Pitchfork
    } else if s == "cluster_bomb"@ {
        AttackMode::ClusterBomb
    } else {
        AttackMode::Sniper
    }
}

impl AttackModeInput {
    /// The attack mode this input names.
    pub fn to_attack_mode(self) -> (r: AttackMode)
        ensures
            r == input_mode(self.mode_type@),
    {
        let m = self.mode_type.as_str();
        if str_eq(m, "battering_ram") {
            AttackMode::BatteringRam
        } else if str_eq(m, "pitchfork") {
            AttackMode::Pitchfork
        } else if str_eq(m, "cluster_bomb") {
            AttackMode::ClusterBomb
        } else {
            AttackMode::Sniper
        }
    }
}

/// The distribution strategy of a new attack: `round_robin`, `batch` (with a
/// batch size) or `load_balanced`.
#[derive(Debug)]
pub struct DistributionStrategyInput {
    pub strategy_type: String,
    pub batch_size: Option<i32>,
}

/// The strategy an input names (round-robin for anything unknown; a batch size
/// of 100 when none is given, a negative size converted as a cast does).
pub open spec fn input_strategy(s: Seq<char>, batch_size: Option<i32>) -> DistributionStrategy {
    if s == "batch"@ {
        DistributionStrategy::Batch {
            batch_size: match batch_size {
                Some(b) => b as usize,
                None => 100,
            },
        }
    } else if s == "load_balanced"@ {
        DistributionStrategy::LoadBalanced
    } else {
        DistributionStrategy::RoundRobin
    }
}

impl DistributionStrategyInput {
    /// The distribution strategy this input names.
    pub fn to_strategy(self) -> (r: DistributionStrategy)
        ensures
            r == input_strategy(self.strategy_type@, self.batch_size),
    {
        let t = self.strategy_type.as_str();
        if str_eq(t, "batch") {
            let b: i32 = match self.batch_size {
                Some(b) => b,
                None => 100,
            };
            DistributionStrategy::Batch { batch_size: b as usize }
        } else if str_eq(t, "load_balanced") {
            DistributionStrategy::LoadBalanced
        } else {
            DistributionStrategy::RoundRobin
        }
    }
}

/// Input for creating an attack.
#[derive(Debug)]
pub struct CreateIntruderAttackInput {
    pub name: String,
    pub request_template: String,
    pub attack_mode: AttackModeInput,
    pub payload_sets: Vec<PayloadSetConfigInput>,
    pub target_agents: Vec<String>,
    pub distribution_strategy: DistributionStrategyInput,
    pub session_data: Option<SessionInput>,
}

/// Input for creating a payload set.
#[derive(Debug)]
pub struct CreatePayloadSetInput {
    pub name: String,
    pub configuration: PayloadConfigInput,
}

// ---------------------------------------------------------------------------
// Sessions
// ---------------------------------------------------------------------------

/// A cookie for the API.
#[derive(Debug)]
pub struct CookieGql {
    pub name: String,
    pub value: String,
    pub domain: Option<String>,
    pub path: Option<String>,
    pub expires: Option<String>,
    pub http_only: bool,
    pub secure: bool,
    pub same_site: Option<String>,
}

/// A session event for the API.
#[derive(Debug)]
pub struct SessionEventGql {
    pub event_type: String,
    pub session_id: String,
    pub timestamp: String,
    pub details: Option<String>,
}

/// What applying a session to a request did.
#[derive(Debug)]
pub struct SessionApplicationResultGql {
    pub session_id: String,
    pub session_name: String,
    pub headers_applied: i32,
    pub cookies_applied: i32,
    pub warnings: Vec<String>,
}

/// Outcome of refreshing a session.
#[derive(Debug)]
pub struct SessionRefreshResultGql {
    pub success: bool,
    pub new_session_id: Option<String>,
    pub error: Option<String>,
    pub refresh_method: String,
}

/// Counts of sessions by state.
#[derive(Debug)]
pub struct SessionStatisticsGql {
    pub total_sessions: i32,
    pub active_sessions: i32,
    pub expired_sessions: i32,
    pub invalid_sessions: i32,
    pub validating_sessions: i32,
}

/// How authentication failures are recognised.
#[derive(Debug)]
pub struct AuthFailureDetectionConfigGql {
    pub failure_status_codes: Vec<i32>,
    pub failure_body_patterns: Vec<String>,
    /// JSON object of header patterns.
    pub failure_header_patterns: String,
    pub login_redirect_patterns: Vec<String>,
}

/// A cookie from the API.
#[derive(Debug)]
pub struct CookieInput {
    pub name: String,
    pub value: String,
    pub domain: Option<String>,
    pub path: Option<String>,
    /// ISO 8601 time.
    pub expires: Option<String>,
    pub http_only: bool,
    pub secure: bool,
    /// `Strict`, `Lax` or `None`.
    pub same_site: Option<String>,
}

/// A session from the API (an id updates an existing session).
#[derive(Debug)]
pub struct SessionInput {
    pub id: Option<String>,
    pub name: String,
    /// JSON object of headers.
    pub headers: String,
    pub cookies: Vec<CookieInput>,
    /// ISO 8601 time.
    pub expires_at: Option<String>,
    pub profile_id: Option<String>,
    /// `Active`, `Expired`, `Invalid` or `Validating`.
    pub status: Option<String>,
    pub success_indicators: Option<Vec<String>>,
}

/// Criteria for choosing a session.
#[derive(Debug)]
pub struct SessionSelectionCriteriaInput {
    pub preferred_profile_ids: Option<Vec<String>>,
    pub max_validation_age_minutes: Option<i32>,
    /// A number, given as text.
    pub min_usage_count: Option<String>,
    pub exclude_recent_failures: Option<bool>,
}

/// Input for applying a session to a request.
#[derive(Debug)]
pub struct ApplySessionToRequestInput {
    pub session_id: String,
    pub request_template: HttpRequestTemplateInput,
    pub expiration_handling: Option<ExpirationHandlingInput>,
}

/// Input for replacing a session's data by hand.
#[derive(Debug)]
pub struct RefreshSessionManuallyInput {
    pub session_id: String,
    pub new_session_data: SessionInput,
}

/// How authentication failures are recognised, from the API.
#[derive(Debug)]
pub struct AuthFailureDetectionConfigInput {
    pub failure_status_codes: Vec<i32>,
    pub failure_body_patterns: Vec<String>,
    /// JSON object of header patterns.
    pub failure_header_patterns: String,
    pub login_redirect_patterns: Vec<String>,
}

} // verus!
