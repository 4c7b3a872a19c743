//! Logging configuration and log-level utilities.

pub mod levels;

use vstd::prelude::*;
use crate::text::{append_str, owned};

verus! {

/// How the orchestrator logs.
#[derive(Debug)]
pub struct LoggingConfig {
    /// trace, debug, info, warn or error.
    pub level: String,
    pub json_format: bool,
    pub include_timestamp: bool,
    pub include_thread_names: bool,
    pub include_file_info: bool,
    pub enable_span_events: bool,
    /// Colored output (text format only).
    pub enable_colors: bool,
    /// Log file; without one logs go to standard output only.
    pub log_file: Option<String>,
    /// Size in MB before a log file is rotated.
    pub max_file_size_mb: u64,
    /// Rotated files kept.
    pub max_files: u32,
    /// Levels for particular modules, as (module, level).
    pub module_levels: Vec<(String, String)>,
}

/// The module levels set by default.
pub open spec fn default_module_levels() -> Seq<(Seq<char>, Seq<char>)> {
    seq![
        ("orchestrator"@, "info"@),
        ("sqlx"@, "warn"@),
        ("tonic"@, "info"@),
        ("hyper"@, "warn"@),
        ("tokio"@, "warn"@),
    ]
}

/// The module levels as text pairs.
pub open spec fn level_pairs(v: Seq<(String, String)>) -> Seq<(Seq<char>, Seq<char>)> {
    v.map_values(|p: (String, String)| (p.0@, p.1@))
}

fn pair(a: &str, b: &str) -> (r: (String, String))
    ensures
        r.0@ == a@ && r.1@ == b@,
{
    (owned(a), owned(b))
}

impl Default for LoggingConfig {
    fn default() -> (r: LoggingConfig)
        ensures
            r.level@ == "info"@,
            !r.json_format && r.include_timestamp && r.include_thread_names && !r.include_file_info
                && !r.enable_span_events && r.enable_colors,
            r.log_file is None,
            r.max_file_size_mb == 100 && r.max_files == 5,
            level_pairs(r.module_levels@) == default_module_levels(),
    {
        let m = vec![
            pair("orchestrator", "info"),
            pair("sqlx", "warn"),
            pair("tonic", "info"),
            pair("hyper", "warn"),
            pair("tokio", "warn"),
        ];
        proof {
            assert(level_pairs(m@) =~= default_module_levels());
        }
        LoggingConfig {
            level: owned("info"),
            json_format: false,
            include_timestamp: true,
            include_thread_names: true,
            include_file_info: false,
            enable_span_events: false,
            enable_colors: true,
            log_file: None,
            max_file_size_mb: 100,
            max_files: 5,
            module_levels: m,
        }
    }
}

/// The filter directives for the module levels: `module=level`, in order.
pub fn log_directives(config: &LoggingConfig) -> (r: Vec<String>)
    ensures
        r@.len() == config.module_levels@.len(),
        forall|i: int|
            0 <= i < r@.len() ==> (#[trigger] r@[i])@ == config.module_levels@[i].0@ + "="@ + config.module_levels@[i].1@,
{
    let mut r: Vec<String> = Vec::new();
    let mut i: usize = 0;
    while i < config.module_levels.len()
        invariant
            i <= config.module_levels@.len(),
            r@.len() == i,
            forall|k: int|
                0 <= k < i ==> (#[trigger] r@[k])@ == config.module_levels@[k].0@ + "="@ + config.module_levels@[k].1@,
        decreases config.module_levels.len() - i,
    {
        let mut d = config.module_levels[i].0.clone();
        append_str(&mut d, "=");
        append_str(&mut d, config.module_levels[i].1.as_str());
        r.push(d);
        i = i + 1;
    }
    r
}

} // verus!
