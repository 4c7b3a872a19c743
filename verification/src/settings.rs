//! Project settings: the proxy's scope and its interception rules.

use vstd::prelude::*;

verus! {

/// Which hosts the proxy records.
#[derive(Debug)]
pub struct ScopeConfig {
    pub enabled: bool,
    /// Such as `*.example.com` or `api.*.io`.
    pub include_patterns: Vec<String>,
    pub exclude_patterns: Vec<String>,
    pub use_regex: bool,
}

impl Default for ScopeConfig {
    fn default() -> (r: ScopeConfig)
        ensures
            !r.enabled && r.include_patterns@.len() == 0 && r.exclude_patterns@.len() == 0 && !r.use_regex,
    {
        ScopeConfig { enabled: false, include_patterns: Vec::new(), exclude_patterns: Vec::new(), use_regex: false }
    }
}

/// What an interception rule matches.
#[derive(Debug)]
pub enum RuleCondition {
    /// Requests with one of these methods.
    Method { methods: Vec<String> },
    /// Requests whose URL contains the pattern.
    UrlContains { pattern: String },
    /// Requests with a header of this value.
    HeaderMatch { header: String, value: String },
    /// Every request.
    All,
}

/// What happens to an intercepted request.
#[derive(Clone, Copy, Debug, PartialEq, Eq, Structural)]
pub enum RuleAction {
    /// Hold the request for editing.
    Pause,
    /// Drop it silently.
    Drop,
    /// Change it automatically.
    Modify,
}

/// An interception rule.
#[derive(Debug)]
pub struct InterceptionRule {
    pub id: String,
    pub enabled: bool,
    pub name: String,
    pub condition: RuleCondition,
    pub action: RuleAction,
}

/// Whether and how requests are intercepted.
#[derive(Debug)]
pub struct InterceptionConfig {
    pub enabled: bool,
    pub rules: Vec<InterceptionRule>,
}

impl Default for InterceptionConfig {
    fn default() -> (r: InterceptionConfig)
        ensures
            !r.enabled && r.rules@.len() == 0,
    {
        InterceptionConfig { enabled: false, rules: Vec::new() }
    }
}

} // verus!
