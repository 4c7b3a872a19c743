//! Log level names and their ordering.

use vstd::prelude::*;
use crate::text::{ascii_lower, ascii_lower_char, ascii_upper, ascii_upper_char, is_ascii_text, lowercase_text, str_eq, to_lowercase};

verus! {

/// The numeric rank of a (lowercase) level name: trace < debug < info < warn < error.
pub open spec fn level_rank(name: Seq<char>) -> Option<u8> {
    if name == "trace"@ {
        Some(0u8)
    } else if name == "debug"@ {
        Some(1u8)
    } else if name == "info"@ {
        Some(2u8)
    } else if name == "warn"@ {
        Some(3u8)
    } else if name == "error"@ {
        Some(4u8)
    } else {
        None
    }
}

/// The five level names, from the most to the least verbose.
pub open spec fn level_names() -> Seq<Seq<char>> {
    seq!["trace"@, "debug"@, "info"@, "warn"@, "error"@]
}

/// A level string is valid when its lowercase form names one of the five levels.
pub fn is_valid_level(level: &str) -> (r: bool)
    ensures
        r == (level_rank(lowercase_text(level@)) is Some),
        is_ascii_text(level@) ==> r == (level_rank(ascii_lower(level@)) is Some),
{
    level_to_numeric(level).is_some()
}

/// The five level names, from the most to the least verbose.
pub fn valid_levels() -> (r: Vec<&'static str>)
    ensures
        r@.len() == 5,
        r@[0]@ == "trace"@,
        r@[1]@ == "debug"@,
        r@[2]@ == "info"@,
        r@[3]@ == "warn"@,
        r@[4]@ == "error"@,
        forall|i: int| 0 <= i < 5 ==> (#[trigger] r@[i])@ == level_names()[i],
        forall|i: int| 0 <= i < 5 ==> level_rank(#[trigger] r@[i]@) == Some(i as u8),
{
    let mut r: Vec<&'static str> = Vec::new();
    r.push("trace");
    r.push("debug");
    r.push("info");
    r.push("warn");
    r.push("error");
    proof {
        reveal_strlit("trace");
        reveal_strlit("debug");
        reveal_strlit("info");
        reveal_strlit("warn");
        reveal_strlit("error");
        assert(r@[0]@ == "trace"@);
        assert(r@[1]@ == "debug"@);
        assert(r@[2]@ == "info"@);
        assert(r@[3]@ == "warn"@);
        assert(r@[4]@ == "error"@);
        assert("debug"@[0] != "trace"@[0]);
        assert("warn"@[0] != "info"@[0]);
        assert(level_rank(r@[0]@) == Some(0u8));
        assert(level_rank(r@[1]@) == Some(1u8));
        assert(level_rank(r@[2]@) == Some(2u8));
        assert(level_rank(r@[3]@) == Some(3u8));
        assert(level_rank(r@[4]@) == Some(4u8));
    }
    r
}

/// The numeric rank of a level, compared case-insensitively; `None` for an unknown name.
pub fn level_to_numeric(level: &str) -> (r: Option<u8>)
    ensures
        r == level_rank(lowercase_text(level@)),
        is_ascii_text(level@) ==> r == level_rank(ascii_lower(level@)),
{
    let lower = to_lowercase(level);
    let l = lower.as_str();
    if str_eq(l, "trace") {
        Some(0)
    } else if str_eq(l, "debug") {
        Some(1)
    } else if str_eq(l, "info") {
        Some(2)
    } else if str_eq(l, "warn") {
        Some(3)
    } else if str_eq(l, "error") {
        Some(4)
    } else {
        None
    }
}

/// Each name of `valid_levels` is ASCII, already lowercase, and ranks at its own
/// position: `level_to_numeric` of the `i`-th name is `i`, so the list has no
/// repeats and runs from the least to the most severe level.
pub proof fn law_valid_levels_rank()
    ensures
        forall|i: int|
            0 <= i < 5 ==> {
                &&& is_ascii_text(#[trigger] level_names()[i])
                &&& ascii_lower(level_names()[i]) == level_names()[i]
                &&& level_rank(ascii_lower(level_names()[i])) == Some(i as u8)
            },
{
    reveal_strlit("trace");
    reveal_strlit("debug");
    reveal_strlit("info");
    reveal_strlit("warn");
    reveal_strlit("error");
    assert forall|i: int| 0 <= i < 5 implies {
        &&& is_ascii_text(#[trigger] level_names()[i])
        &&& ascii_lower(level_names()[i]) == level_names()[i]
        &&& level_rank(ascii_lower(level_names()[i])) == Some(i as u8)
    } by {
        let n = level_names()[i];
        assert(ascii_lower(n) =~= n);
        assert("debug"@[0] != "trace"@[0]);
        assert("warn"@[0] != "info"@[0]);
    }
}

proof fn lemma_ascii_case_char(c: char)
    requires
        (c as u32) < 128,
    ensures
        (ascii_upper_char(c) as u32) < 128,
        (ascii_lower_char(c) as u32) < 128,
        ascii_lower_char(ascii_upper_char(c)) == ascii_lower_char(c),
        ascii_lower_char(ascii_lower_char(c)) == ascii_lower_char(c),
{
}

/// Level names compare without regard to ASCII case: an ASCII name ranks as its
/// capitalised and its lowercase forms do (so `level_to_numeric` gives the same
/// for all three), and a rank is never above 4.
pub proof fn law_level_case_insensitive(s: Seq<char>)
    requires
        is_ascii_text(s),
    ensures
        is_ascii_text(ascii_upper(s)),
        is_ascii_text(ascii_lower(s)),
        level_rank(ascii_lower(ascii_upper(s))) == level_rank(ascii_lower(s)),
        level_rank(ascii_lower(ascii_lower(s))) == level_rank(ascii_lower(s)),
        level_rank(ascii_lower(s)) matches Some(n) ==> n <= 4,
{
    assert forall|i: int| 0 <= i < s.len() implies {
        &&& (#[trigger] ascii_upper(s)[i] as u32) < 128
        &&& (ascii_lower(s)[i] as u32) < 128
        &&& ascii_lower(ascii_upper(s))[i] == ascii_lower(s)[i]
        &&& ascii_lower(ascii_lower(s))[i] == ascii_lower(s)[i]
    } by {
        lemma_ascii_case_char(s[i]);
    }
    assert(ascii_lower(ascii_upper(s)) =~= ascii_lower(s));
    assert(ascii_lower(ascii_lower(s)) =~= ascii_lower(s));
}

}
