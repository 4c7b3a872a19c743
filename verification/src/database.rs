//! Records stored in a project database, and the rules that name and
//! validate projects.

pub mod flow;
pub mod intruder;
pub mod repeater;

use vstd::prelude::*;
use crate::text::{append_str, chars_has_suffix, chars_of, chars_slice, is_suffix, owned, string_of};

verus! {

/// A project as listed from the projects directory.
pub struct Project {
    pub name: String,
    pub path: String,
    pub size_bytes: i64,
    pub last_modified: String,
    pub is_active: bool,
}

/// A scope rule: an include or exclude pattern over hosts.
pub struct ScopeRule {
    pub id: String,
    pub rule_type: String,
    pub pattern: String,
    pub is_regex: bool,
    pub enabled: bool,
    pub created_at: i64,
}

/// What `char::is_alphanumeric` says of a character (Unicode alphabetic or numeric).
pub uninterp spec fn alphanumeric(c: char) -> bool;

/// `char::is_alphanumeric`: true for Unicode alphabetic and numeric characters,
/// named by `alphanumeric`; ASCII letters and digits are alphanumeric,
/// and '-', '_', ' ', '.', '@' and '/' are not.
#[verifier::external_body]
pub fn is_alphanumeric(c: char) -> (r: bool)
    ensures
        r == alphanumeric(c),
        ('a' <= c <= 'z' || 'A' <= c <= 'Z' || '0' <= c <= '9') ==> r,
        (c == '-' || c == '_' || c == ' ' || c == '.' || c == '@' || c == '/') ==> !r,
{
    c.is_alphanumeric()
}

/// A character allowed in a project name.
pub open spec fn name_char_ok(c: char) -> bool {
    alphanumeric(c) || c == '-' || c == '_'
}

/// Every character of `name` is alphanumeric, '-' or '_' (the empty name passes).
pub open spec fn project_name_chars_ok(name: Seq<char>) -> bool {
    forall|i: int| 0 <= i < name.len() ==> name_char_ok(#[trigger] name[i])
}

/// Whether each character of `name` is alphanumeric, '-' or '_'.
pub fn project_name_chars_valid(name: &str) -> (r: bool)
    ensures
        r == project_name_chars_ok(name@),
{
    let v = chars_of(name);
    let mut i: usize = 0;
    while i < v.len()
        invariant
            v@ == name@,
            i <= v.len(),
            forall|j: int| 0 <= j < i ==> name_char_ok(#[trigger] name@[j]),
        decreases v.len() - i,
    {
        let c = v[i];
        if !(is_alphanumeric(c) || c == '-' || c == '_') {
            assert(!name_char_ok(name@[i as int]));
            return false;
        }
        i = i + 1;
    }
    true
}

/// The suffix that marks a project directory.
pub open spec fn project_suffix() -> Seq<char> {
    ".proxxy"@
}

/// The directory name that holds project `name`.
pub fn project_folder_name(name: &str) -> (r: String)
    ensures
        r@ == name@ + project_suffix(),
{
    let mut r = owned(name);
    append_str(&mut r, ".proxxy");
    r
}

/// `s` with every trailing copy of `suffix` removed (what `trim_end_matches` does).
pub open spec fn trim_suffix_all(s: Seq<char>, suffix: Seq<char>) -> Seq<char>
    decreases s.len(),
{
    if suffix.len() > 0 && is_suffix(suffix, s) {
        trim_suffix_all(s.subrange(0, s.len() - suffix.len()), suffix)
    } else {
        s
    }
}

/// The project named by a directory, if the directory name ends with ".proxxy":
/// the name is the directory name with all trailing ".proxxy" removed.
pub open spec fn project_name_of_dir(dir_name: Seq<char>) -> Option<Seq<char>> {
    if is_suffix(project_suffix(), dir_name) {
        Some(trim_suffix_all(dir_name, project_suffix()))
    } else {
        None
    }
}

/// The project name a directory stands for, or `None` when the directory is no project.
pub fn project_name_from_dir(dir_name: &str) -> (r: Option<String>)
    ensures
        match r {
            Some(n) => project_name_of_dir(dir_name@) == Some(n@),
            None => project_name_of_dir(dir_name@) is None,
        },
{
    proof {
        reveal_strlit(".proxxy");
    }
    let suffix = chars_of(".proxxy");
    let mut cur = chars_of(dir_name);
    if !chars_has_suffix(cur.as_slice(), suffix.as_slice()) {
        return None;
    }
    while chars_has_suffix(cur.as_slice(), suffix.as_slice())
        invariant
            suffix@ == project_suffix(),
            suffix@.len() == 7,
            trim_suffix_all(cur@, suffix@) == trim_suffix_all(dir_name@, suffix@),
        decreases cur@.len(),
    {
        let end = cur.len() - suffix.len();
        cur = chars_slice(cur.as_slice(), 0, end);
    }
    Some(string_of(cur.as_slice()))
}

/// Builds the listing entry for a project directory, or `None` when the directory
/// name does not end with ".proxxy". The entry is active when its name is the active project's.
pub fn project_entry(
    dir_name: &str,
    path: String,
    size_bytes: i64,
    last_modified: String,
    active: Option<&str>,
) -> (r: Option<Project>)
    ensures
        match r {
            Some(p) => {
                &&& project_name_of_dir(dir_name@) == Some(p.name@)
                &&& p.path == path
                &&& p.size_bytes == size_bytes
                &&& p.last_modified == last_modified
                &&& p.is_active == (active matches Some(a) && a@ == p.name@)
            },
            None => project_name_of_dir(dir_name@) is None,
        },
{
    match project_name_from_dir(dir_name) {
        None => None,
        Some(name) => {
            let is_active = match active {
                Some(a) => crate::text::str_eq(a, name.as_str()),
                None => false,
            };
            Some(Project { name, path, size_bytes, last_modified, is_active })
        },
    }
}

}
