//! Opening a project named on the command line: the name check, and the
//! settings a project starts with when its stored ones cannot be read.

use vstd::prelude::*;
use crate::database::{project_name_chars_ok, project_name_chars_valid, Project};
use crate::settings::{InterceptionConfig, ScopeConfig};
use crate::text::{append_str, owned, str_eq};

verus! {

/// A project name is non-empty and made of alphanumerics, `-` and `_`.
pub open spec fn valid_project_name(name: Seq<char>) -> bool {
    name.len() > 0 && project_name_chars_ok(name)
}

/// Whether a project name is acceptable.
pub fn is_valid_project_name(name: &str) -> (r: bool)
    ensures
        r == valid_project_name(name@),
{
    !name.is_empty() && project_name_chars_valid(name)
}

/// Checks the name of the project to open; the error explains what is allowed.
pub fn check_cli_project_name(name: &str) -> (r: Result<(), String>)
    ensures
        valid_project_name(name@) ==> r is Ok,
        !valid_project_name(name@) ==> (r matches Err(e) && e@ == "Invalid project name '"@ + name@
            + "'. Use only alphanumeric characters, hyphens, and underscores"@),
{
    if is_valid_project_name(name) {
        Ok(())
    } else {
        let mut m = owned("Invalid project name '");
        append_str(&mut m, name);
        append_str(&mut m, "'. Use only alphanumeric characters, hyphens, and underscores");
        Err(m)
    }
}

/// Whether a project of this name is among the listed projects.
pub fn project_exists(projects: &Vec<Project>, name: &str) -> (r: bool)
    ensures
        r == exists|k: int| 0 <= k < projects@.len() && (#[trigger] projects@[k]).name@ == name@,
{
    let mut k: usize = 0;
    while k < projects.len()
        invariant
            k <= projects@.len(),
            forall|t: int| 0 <= t < k ==> (#[trigger] projects@[t]).name@ != name@,
        decreases projects.len() - k,
    {
        if str_eq(projects[k].name.as_str(), name) {
            return true;
        }
        k = k + 1;
    }
    false
}

/// The stored scope settings, or the defaults when they could not be read.
pub fn scope_or_default(stored: Result<ScopeConfig, String>) -> (r: ScopeConfig)
    ensures
        stored matches Ok(c) ==> r == c,
        stored is Err ==> !r.enabled && r.include_patterns@.len() == 0 && r.exclude_patterns@.len() == 0 && !r.use_regex,
{
    match stored {
        Ok(c) => c,
        Err(_) => ScopeConfig::default(),
    }
}

/// The stored interception settings, or the defaults when they could not be read.
pub fn interception_or_default(stored: Result<InterceptionConfig, String>) -> (r: InterceptionConfig)
    ensures
        stored matches Ok(c) ==> r == c,
        stored is Err ==> !r.enabled && r.rules@.len() == 0,
{
    match stored {
        Ok(c) => c,
        Err(_) => InterceptionConfig::default(),
    }
}

} // verus!
