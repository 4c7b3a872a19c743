//! Scope rules: which hosts the proxy treats as in scope.

use vstd::prelude::*;
use crate::database::ScopeRule;
use crate::text::{chars_has_prefix, chars_of, chars_slice, is_prefix, str_eq, string_of};

verus! {

/// What compiling `pattern` with `regex::Regex::new` and matching `text` with
/// `Regex::is_match` gives: `None` when the pattern does not compile.
pub uninterp spec fn regex_outcome(pattern: Seq<char>, text: Seq<char>) -> Option<bool>;

/// What compiling `pattern` with `glob::Pattern::new` and matching `text` with
/// `Pattern::matches` gives: `None` when the pattern does not compile.
pub uninterp spec fn glob_outcome(pattern: Seq<char>, text: Seq<char>) -> Option<bool>;

/// `regex::Regex::new(pattern)` then `Regex::is_match(text)`: the outcome is
/// named by `regex_outcome`, a function of the pattern and the text alone;
/// what the regex language means is not stated.
#[verifier::external_body]
pub(crate) fn regex_match(pattern: &str, text: &str) -> (r: Option<bool>)
    ensures
        r == regex_outcome(pattern@, text@),
{
    match regex::Regex::new(pattern) {
        Ok(re) => Some(re.is_match(text)),
        Err(_) => None,
    }
}

/// `glob::Pattern::new(pattern)` then `Pattern::matches(text)`: the outcome is
/// named by `glob_outcome`, a function of the pattern and the text alone;
/// what the glob language means is not stated.
#[verifier::external_body]
fn glob_match(pattern: &str, text: &str) -> (r: Option<bool>)
    ensures
        r == glob_outcome(pattern@, text@),
{
    match glob::Pattern::new(pattern) {
        Ok(p) => Some(p.matches(text)),
        Err(_) => None,
    }
}

/// `s` with every leading copy of `p` removed (what `trim_start_matches` does).
pub open spec fn trim_prefix_all(s: Seq<char>, p: Seq<char>) -> Seq<char>
    decreases s.len(),
{
    if p.len() > 0 && is_prefix(p, s) {
        trim_prefix_all(s.subrange(p.len() as int, s.len() as int), p)
    } else {
        s
    }
}

/// The position of the first `c` in `s`, or the length of `s` when there is none.
pub open spec fn first_index(s: Seq<char>, c: char) -> nat
    decreases s.len(),
{
    if s.len() == 0 {
        0
    } else if s[0] == c {
        0
    } else {
        1 + first_index(s.subrange(1, s.len() as int), c)
    }
}

/// The part of `s` before the first `c` (all of `s` when there is none).
pub open spec fn before_char(s: Seq<char>, c: char) -> Seq<char> {
    s.subrange(0, first_index(s, c) as int)
}

/// The host of a URL: leading "http://" and then "https://" removed (every
/// repetition), then everything from the first '/' and then from the first ':' cut off.
pub open spec fn host_of(url: Seq<char>) -> Seq<char> {
    before_char(
        before_char(trim_prefix_all(trim_prefix_all(url, "http://"@), "https://"@), '/'),
        ':',
    )
}

/// `k` is where the first `c` in `s` is, exactly when no earlier position holds `c`
/// and `k` is the end of `s` or holds `c`.
pub proof fn lemma_first_index(s: Seq<char>, c: char, k: int)
    requires
        0 <= k <= s.len(),
        k < s.len() ==> s[k] == c,
        forall|j: int| 0 <= j < k ==> s[j] != c,
    ensures
        first_index(s, c) == k,
    decreases s.len(),
{
    if s.len() == 0 {
    } else if s[0] == c {
    } else {
        let t = s.subrange(1, s.len() as int);
        assert forall|j: int| 0 <= j < k - 1 implies t[j] != c by {
            assert(t[j] == s[j + 1]);
        }
        if k - 1 < t.len() {
            assert(t[k - 1] == s[k]);
        }
        lemma_first_index(t, c, k - 1);
    }
}

fn chars_trim_prefix_all(s: Vec<char>, p: &[char]) -> (r: Vec<char>)
    requires
        p@.len() > 0,
    ensures
        r@ == trim_prefix_all(s@, p@),
{
    let mut cur = s;
    while chars_has_prefix(cur.as_slice(), p)
        invariant
            p@.len() > 0,
            trim_prefix_all(cur@, p@) == trim_prefix_all(s@, p@),
        decreases cur@.len(),
    {
        let n = cur.len();
        cur = chars_slice(cur.as_slice(), p.len(), n);
    }
    cur
}

/// The characters of `s` before the first `c` (all of them when there is none).
pub fn chars_before(s: &[char], c: char) -> (r: Vec<char>)
    ensures
        r@ == before_char(s@, c),
{
    let mut k: usize = 0;
    while k < s.len() && s[k] != c
        invariant
            k <= s.len(),
            forall|j: int| 0 <= j < k ==> s@[j] != c,
        decreases s.len() - k,
    {
        k = k + 1;
    }
    proof {
        lemma_first_index(s@, c, k as int);
    }
    chars_slice(s, 0, k)
}

/// Extracts the host name from a URL (see `host_of`).
pub fn extract_host(url: &str) -> (r: String)
    ensures
        r@ == host_of(url@),
{
    proof {
        reveal_strlit("http://");
        reveal_strlit("https://");
    }
    let http = chars_of("http://");
    let https = chars_of("https://");
    let s = chars_trim_prefix_all(chars_of(url), http.as_slice());
    let s = chars_trim_prefix_all(s, https.as_slice());
    let s = chars_before(s.as_slice(), '/');
    let s = chars_before(s.as_slice(), ':');
    string_of(s.as_slice())
}

/// Whether a glob pattern of the form "*.domain" names the bare domain itself.
pub open spec fn glob_apex_match(pattern: Seq<char>, host: Seq<char>) -> bool {
    pattern.len() >= 2 && pattern[0] == '*' && pattern[1] == '.' && pattern.subrange(
        2,
        pattern.len() as int,
    ) == host
}

/// Whether a pattern matches a host: a regex must compile and match; a glob must
/// compile and match, and a glob "*.domain" also matches "domain" itself.
/// A pattern that does not compile matches nothing.
pub open spec fn pattern_matches(pattern: Seq<char>, host: Seq<char>, is_regex: bool) -> bool {
    if is_regex {
        regex_outcome(pattern, host) == Some(true)
    } else {
        glob_outcome(pattern, host) == Some(true) || glob_apex_match(pattern, host)
    }
}

/// Checks a pattern against a host (see `pattern_matches`).
pub fn matches_pattern(pattern_str: &str, host: &str, is_regex: bool) -> (r: bool)
    ensures
        r == pattern_matches(pattern_str@, host@, is_regex),
{
    if is_regex {
        match regex_match(pattern_str, host) {
            Some(m) => m,
            None => false,
        }
    } else {
        let globbed = match glob_match(pattern_str, host) {
            Some(m) => m,
            None => false,
        };
        if globbed {
            return true;
        }
        let p = chars_of(pattern_str);
        if p.len() >= 2 && p[0] == '*' && p[1] == '.' {
            let rest = chars_slice(p.as_slice(), 2, p.len());
            let h = chars_of(host);
            crate::text::chars_eq(rest.as_slice(), h.as_slice())
        } else {
            false
        }
    }
}

/// The rule kind that blocks a host.
pub open spec fn exclude_kind() -> Seq<char> {
    "Exclude"@
}

/// The rule kind that admits a host.
pub open spec fn include_kind() -> Seq<char> {
    "Include"@
}

/// Some enabled rule of the given kind exists.
pub open spec fn has_enabled(rules: Seq<ScopeRule>, kind: Seq<char>) -> bool {
    exists|i: int| 0 <= i < rules.len() && rules[i].enabled && #[trigger] rules[i].rule_type@ == kind
}

/// Some enabled rule of the given kind matches the host.
pub open spec fn enabled_match(rules: Seq<ScopeRule>, kind: Seq<char>, host: Seq<char>) -> bool {
    exists|i: int|
        0 <= i < rules.len() && rules[i].enabled && rules[i].rule_type@ == kind
            && #[trigger] pattern_matches(rules[i].pattern@, host, rules[i].is_regex)
}

/// Whether a URL is in scope:
/// with no enabled rule everything is in scope; an enabled matching Exclude rule
/// puts it out of scope; otherwise, if enabled Include rules exist, one of them must
/// match; if only Exclude rules exist, anything not excluded is in scope.
pub open spec fn in_scope(rules: Seq<ScopeRule>, url: Seq<char>) -> bool {
    let host = host_of(url);
    if !(exists|i: int| 0 <= i < rules.len() && #[trigger] rules[i].enabled) {
        true
    } else if enabled_match(rules, exclude_kind(), host) {
        false
    } else if !has_enabled(rules, include_kind()) {
        true
    } else {
        enabled_match(rules, include_kind(), host)
    }
}

/// Whether some enabled rule of `kind` matches `host`.
fn any_enabled_match(rules: &[ScopeRule], kind: &str, host: &str) -> (r: bool)
    ensures
        r == enabled_match(rules@, kind@, host@),
{
    let mut i: usize = 0;
    while i < rules.len()
        invariant
            i <= rules.len(),
            forall|j: int|
                0 <= j < i ==> !(rules@[j].enabled && rules@[j].rule_type@ == kind@
                    && #[trigger] pattern_matches(rules@[j].pattern@, host@, rules@[j].is_regex)),
        decreases rules.len() - i,
    {
        let r = &rules[i];
        if r.enabled && str_eq(r.rule_type.as_str(), kind) && matches_pattern(
            r.pattern.as_str(),
            host,
            r.is_regex,
        ) {
            assert(pattern_matches(rules@[i as int].pattern@, host@, rules@[i as int].is_regex));
            return true;
        }
        i = i + 1;
    }
    false
}

/// Whether some enabled rule of `kind` exists.
fn any_enabled_kind(rules: &[ScopeRule], kind: &str) -> (r: bool)
    ensures
        r == has_enabled(rules@, kind@),
{
    let mut i: usize = 0;
    while i < rules.len()
        invariant
            i <= rules.len(),
            forall|j: int| 0 <= j < i ==> !(rules@[j].enabled && #[trigger] rules@[j].rule_type@ == kind@),
        decreases rules.len() - i,
    {
        if rules[i].enabled && str_eq(rules[i].rule_type.as_str(), kind) {
            return true;
        }
        i = i + 1;
    }
    false
}

/// Checks whether a URL is in scope under the given rules (see `in_scope`).
pub fn is_in_scope(rules: &[ScopeRule], url: &str) -> (r: bool)
    ensures
        r == in_scope(rules@, url@),
{
    let mut any_enabled = false;
    let mut i: usize = 0;
    while i < rules.len()
        invariant
            i <= rules.len(),
            any_enabled == exists|j: int| 0 <= j < i && #[trigger] rules@[j].enabled,
        decreases rules.len() - i,
    {
        if rules[i].enabled {
            any_enabled = true;
        }
        i = i + 1;
    }
    if !any_enabled {
        return true;
    }
    let host = extract_host(url);
    proof {
        reveal_strlit("Exclude");
        reveal_strlit("Include");
    }
    if any_enabled_match(rules, "Exclude", host.as_str()) {
        return false;
    }
    if !any_enabled_kind(rules, "Include") {
        return true;
    }
    any_enabled_match(rules, "Include", host.as_str())
}


/// Some enabled rule satisfies `p`.
pub open spec fn some_enabled(rules: Seq<ScopeRule>, p: spec_fn(ScopeRule) -> bool) -> bool {
    exists|i: int| 0 <= i < rules.len() && rules[i].enabled && #[trigger] p(rules[i])
}

/// The enabled rules, in their order.
pub open spec fn enabled_rules(rules: Seq<ScopeRule>) -> Seq<ScopeRule> {
    rules.filter(|r: ScopeRule| r.enabled)
}

proof fn lemma_some_enabled_filter(rules: Seq<ScopeRule>, p: spec_fn(ScopeRule) -> bool)
    ensures
        some_enabled(rules, p) == some_enabled(enabled_rules(rules), p),
{
    let pred = |r: ScopeRule| r.enabled;
    let f = rules.filter(pred);
    if some_enabled(rules, p) {
        let i = choose|i: int| 0 <= i < rules.len() && rules[i].enabled && #[trigger] p(rules[i]);
        rules.lemma_filter_contains(pred, i);
        let j = choose|j: int| 0 <= j < f.len() && f[j] == rules[i];
        assert(f[j].enabled && p(f[j]));
    }
    if some_enabled(f, p) {
        let j = choose|j: int| 0 <= j < f.len() && f[j].enabled && #[trigger] p(f[j]);
        assert(f.contains(f[j]));
        rules.lemma_filter_contains_rev(pred, f[j]);
        let i = choose|i: int| 0 <= i < rules.len() && rules[i] == f[j];
        assert(rules[i].enabled && p(rules[i]));
    }
}

proof fn lemma_in_scope_by_some_enabled(rules: Seq<ScopeRule>, url: Seq<char>)
    ensures
        in_scope(rules, url) == {
            let host = host_of(url);
            if !some_enabled(rules, |r: ScopeRule| true) {
                true
            } else if some_enabled(
                rules,
                |r: ScopeRule|
                    r.rule_type@ == exclude_kind() && pattern_matches(r.pattern@, host, r.is_regex),
            ) {
                false
            } else if !some_enabled(rules, |r: ScopeRule| r.rule_type@ == include_kind()) {
                true
            } else {
                some_enabled(
                    rules,
                    |r: ScopeRule|
                        r.rule_type@ == include_kind() && pattern_matches(
                            r.pattern@,
                            host,
                            r.is_regex,
                        ),
                )
            }
        },
{
    let host = host_of(url);
    let t = |r: ScopeRule| true;
    let ex = |r: ScopeRule|
        r.rule_type@ == exclude_kind() && pattern_matches(r.pattern@, host, r.is_regex);
    let inc = |r: ScopeRule| r.rule_type@ == include_kind();
    let inm = |r: ScopeRule|
        r.rule_type@ == include_kind() && pattern_matches(r.pattern@, host, r.is_regex);
    if exists|i: int| 0 <= i < rules.len() && #[trigger] rules[i].enabled {
        let i = choose|i: int| 0 <= i < rules.len() && #[trigger] rules[i].enabled;
        assert(t(rules[i]));
    }
    if some_enabled(rules, t) {
        let i = choose|i: int| 0 <= i < rules.len() && rules[i].enabled && #[trigger] t(rules[i]);
        assert(rules[i].enabled);
    }
    if enabled_match(rules, exclude_kind(), host) {
        let i = choose|i: int|
            0 <= i < rules.len() && rules[i].enabled && rules[i].rule_type@ == exclude_kind()
                && #[trigger] pattern_matches(rules[i].pattern@, host, rules[i].is_regex);
        assert(ex(rules[i]));
    }
    if some_enabled(rules, ex) {
        let i = choose|i: int| 0 <= i < rules.len() && rules[i].enabled && #[trigger] ex(rules[i]);
        assert(pattern_matches(rules[i].pattern@, host, rules[i].is_regex));
    }
    if has_enabled(rules, include_kind()) {
        let i = choose|i: int|
            0 <= i < rules.len() && rules[i].enabled && #[trigger] rules[i].rule_type@ == include_kind();
        assert(inc(rules[i]));
    }
    if some_enabled(rules, inc) {
        let i = choose|i: int| 0 <= i < rules.len() && rules[i].enabled && #[trigger] inc(rules[i]);
        assert(rules[i].rule_type@ == include_kind());
    }
    if enabled_match(rules, include_kind(), host) {
        let i = choose|i: int|
            0 <= i < rules.len() && rules[i].enabled && rules[i].rule_type@ == include_kind()
                && #[trigger] pattern_matches(rules[i].pattern@, host, rules[i].is_regex);
        assert(inm(rules[i]));
    }
    if some_enabled(rules, inm) {
        let i = choose|i: int| 0 <= i < rules.len() && rules[i].enabled && #[trigger] inm(rules[i]);
        assert(pattern_matches(rules[i].pattern@, host, rules[i].is_regex));
    }
}

/// Disabled rules never matter: a URL is in scope under a rule list exactly when it
/// is in scope under the enabled rules of that list alone.
pub proof fn law_disabled_rules_ignored(rules: Seq<ScopeRule>, url: Seq<char>)
    ensures
        in_scope(rules, url) == in_scope(enabled_rules(rules), url),
{
    let host = host_of(url);
    lemma_in_scope_by_some_enabled(rules, url);
    lemma_in_scope_by_some_enabled(enabled_rules(rules), url);
    lemma_some_enabled_filter(rules, |r: ScopeRule| true);
    lemma_some_enabled_filter(
        rules,
        |r: ScopeRule|
            r.rule_type@ == exclude_kind() && pattern_matches(r.pattern@, host, r.is_regex),
    );
    lemma_some_enabled_filter(rules, |r: ScopeRule| r.rule_type@ == include_kind());
    lemma_some_enabled_filter(
        rules,
        |r: ScopeRule|
            r.rule_type@ == include_kind() && pattern_matches(r.pattern@, host, r.is_regex),
    );
}

/// Exclusion wins: when an enabled Exclude rule matches the URL's host, the URL is
/// out of scope, whatever Include rules say.
pub proof fn law_exclude_wins(rules: Seq<ScopeRule>, url: Seq<char>, i: int)
    requires
        0 <= i < rules.len(),
        rules[i].enabled,
        rules[i].rule_type@ == exclude_kind(),
        pattern_matches(rules[i].pattern@, host_of(url), rules[i].is_regex),
    ensures
        !in_scope(rules, url),
{
    assert(rules[i].enabled);
}

/// With no enabled rule, every URL is in scope.
pub proof fn law_no_rules_everything_in_scope(rules: Seq<ScopeRule>, url: Seq<char>)
    requires
        forall|i: int| 0 <= i < rules.len() ==> !(#[trigger] rules[i]).enabled,
    ensures
        in_scope(rules, url),
{
}

/// When enabled Include rules exist, a URL in scope is matched by one of them.
pub proof fn law_includes_must_match(rules: Seq<ScopeRule>, url: Seq<char>)
    requires
        has_enabled(rules, include_kind()),
        in_scope(rules, url),
    ensures
        enabled_match(rules, include_kind(), host_of(url)),
{
    let i = choose|i: int|
        0 <= i < rules.len() && rules[i].enabled && #[trigger] rules[i].rule_type@ == include_kind();
    assert(rules[i].enabled);
}

/// With only Exclude rules enabled, a URL is in scope exactly when no enabled
/// Exclude rule matches its host.
pub proof fn law_only_excludes(rules: Seq<ScopeRule>, url: Seq<char>)
    requires
        !has_enabled(rules, include_kind()),
    ensures
        in_scope(rules, url) == !enabled_match(rules, exclude_kind(), host_of(url)),
{
}

}
