//! Selectors for recorded browser events: dynamic-id detection, XPath to CSS
//! conversion, and the priority-ordered smart selector of an event.

use vstd::prelude::*;
use vstd::string::StringSliceAdditionalSpecFns;
use crate::database::{alphanumeric, is_alphanumeric};
use crate::text::{
    append_str, byte_len, chars_has_prefix, chars_has_suffix, chars_of, chars_slice, is_prefix, is_suffix, join, nat_text, owned,
    parse_unsigned, split_chars, split_on, string_of, texts, unsigned_parse, u64_text, join_strings,
};

verus! {

/// What `char::is_numeric` says of a character (Unicode numeric).
pub uninterp spec fn numeric(c: char) -> bool;

/// `char::is_numeric`: the result is named by `numeric`; ASCII digits are numeric.
#[verifier::external_body]
pub fn is_numeric(c: char) -> (r: bool)
    ensures
        r == numeric(c),
        ('0' <= c <= '9') ==> r,
{
    c.is_numeric()
}

/// Number of numeric characters in `s`.
pub open spec fn numeric_count(s: Seq<char>) -> nat
    decreases s.len(),
{
    if s.len() == 0 {
        0
    } else {
        numeric_count(s.drop_last()) + if numeric(s.last()) { 1nat } else { 0nat }
    }
}

/// An id that frameworks generate: a `__`, `ember` or `react-` prefix, more
/// numeric characters than half its length in bytes, or at most two bytes long
/// and all alphanumeric.
pub open spec fn dynamic_id(id: Seq<char>, byte_len: nat) -> bool {
    ||| is_prefix("__"@, id)
    ||| is_prefix("ember"@, id)
    ||| is_prefix("react-"@, id)
    ||| numeric_count(id) > byte_len / 2
    ||| (byte_len <= 2 && forall|i: int| 0 <= i < id.len() ==> alphanumeric(#[trigger] id[i]))
}

/// Whether an element id looks generated and should not be used in a selector.
pub fn is_dynamic_id(id: &str) -> (r: bool)
    ensures
        r == dynamic_id(id@, byte_len(id@)),
{
    let v = chars_of(id);
    if chars_has_prefix(v.as_slice(), chars_of("__").as_slice()) || chars_has_prefix(v.as_slice(), chars_of("ember").as_slice())
        || chars_has_prefix(v.as_slice(), chars_of("react-").as_slice()) {
        return true;
    }
    let mut digits: usize = 0;
    let mut i: usize = 0;
    while i < v.len()
        invariant
            v@ == id@,
            i <= v@.len(),
            digits == numeric_count(v@.take(i as int)),
            digits <= i,
        decreases v.len() - i,
    {
        proof {
            assert(v@.take(i + 1).drop_last() =~= v@.take(i as int));
        }
        if is_numeric(v[i]) {
            digits = digits + 1;
        }
        i = i + 1;
    }
    proof {
        assert(v@.take(v@.len() as int) =~= v@);
    }
    let n = id.len();
    proof {
        assert(id.spec_bytes() == vstd::utf8::encode_utf8(id@));
        assert(n as nat == byte_len(id@));
    }
    if digits > n / 2 {
        return true;
    }
    if n <= 2 {
        let mut j: usize = 0;
        while j < v.len()
            invariant
                v@ == id@,
                j <= v@.len(),
                forall|t: int| 0 <= t < j ==> alphanumeric(#[trigger] v@[t]),
                !is_prefix("__"@, id@) && !is_prefix("ember"@, id@) && !is_prefix("react-"@, id@),
                numeric_count(id@) <= n as nat / 2,
                n == id.len(),
                n <= 2,
            decreases v.len() - j,
        {
            if !is_alphanumeric(v[j]) {
                return false;
            }
            j = j + 1;
        }
        return true;
    }
    false
}

/// XPath of the form `//*[@id="…"]`.
pub open spec fn id_xpath_dq() -> Seq<char> {
    "//*[@id=\""@
}

/// XPath of the form `//*[@id='…']`.
pub open spec fn id_xpath_sq() -> Seq<char> {
    "//*[@id='"@
}

/// The XPath is an id lookup with double quotes.
pub open spec fn is_dq_id_path(x: Seq<char>) -> bool {
    is_prefix(id_xpath_dq(), x) && is_suffix("\"]"@, x)
}

/// The XPath is an id lookup with single quotes.
pub open spec fn is_sq_id_path(x: Seq<char>) -> bool {
    is_prefix(id_xpath_sq(), x) && is_suffix("']"@, x)
}

/// Position of the first `c` in `s`, or the length of `s`.
pub open spec fn first_pos(s: Seq<char>, c: char) -> int
    decreases s.len(),
{
    if s.len() == 0 {
        0
    } else if s[0] == c {
        0
    } else {
        1 + first_pos(s.drop_first(), c)
    }
}

/// A path step that converts: not empty and not `*`.
pub open spec fn kept_step(p: Seq<char>) -> bool {
    p.len() > 0 && p != "*"@
}

/// The CSS for one XPath step: `el[n]` becomes `el:nth-of-type(n)` (just `el`
/// for 1 or an index that does not parse), anything else stays as it is.
pub open spec fn step_css(p: Seq<char>) -> Seq<char> {
    if p.contains('[') {
        let b = first_pos(p, '[');
        let el = p.subrange(0, b);
        match unsigned_parse(p.subrange(b + 1, p.len() - 1), u32::MAX as nat) {
            Some(n) => if n == 1 { el } else { el + ":nth-of-type("@ + nat_text(n) + ")"@ },
            None => el,
        }
    } else {
        p
    }
}

/// The CSS of the converted steps of an XPath, in order.
pub open spec fn steps_css(parts: Seq<Seq<char>>) -> Seq<Seq<char>> {
    parts.filter(|p: Seq<char>| kept_step(p)).map_values(|p: Seq<char>| step_css(p))
}

/// The CSS selector for an XPath (best effort).
pub open spec fn xpath_css(x: Seq<char>) -> Seq<char> {
    if is_dq_id_path(x) || is_sq_id_path(x) {
        "#"@ + x.subrange(9, x.len() - 2)
    } else {
        join(steps_css(split_on(x, '/')), " > "@)
    }
}

/// The conversion does not cut a string inside a character or backwards: an id
/// lookup is long enough to hold its quotes, and each step with a `[` ends in an
/// ASCII character after it.
pub open spec fn xpath_convertible(x: Seq<char>) -> bool {
    if is_dq_id_path(x) || is_sq_id_path(x) {
        x.len() >= 11
    } else {
        forall|k: int|
            0 <= k < split_on(x, '/').len() && kept_step(#[trigger] split_on(x, '/')[k]) && split_on(x, '/')[k].contains('[')
                ==> {
                let p = split_on(x, '/')[k];
                first_pos(p, '[') + 1 < p.len() && (p.last() as u32) < 128
            }
    }
}

proof fn lemma_first_pos(s: Seq<char>, c: char)
    ensures
        0 <= first_pos(s, c) <= s.len(),
        first_pos(s, c) < s.len() ==> s[first_pos(s, c)] == c,
        forall|i: int| 0 <= i < first_pos(s, c) ==> s[i] != c,
        s.contains(c) ==> first_pos(s, c) < s.len(),
    decreases s.len(),
{
    if s.len() > 0 {
        lemma_first_pos(s.drop_first(), c);
        assert forall|i: int| 0 < i < s.len() implies s[i] == s.drop_first()[i - 1] by {}
        if s.contains(c) && s[0] != c {
            let j = choose|j: int| 0 <= j < s.len() && s[j] == c;
            assert(s.drop_first()[j - 1] == c);
        }
    }
}

fn first_bracket(p: &Vec<char>) -> (b: usize)
    ensures
        b == first_pos(p@, '['),
{
    proof {
        lemma_first_pos(p@, '[');
    }
    let mut i: usize = 0;
    while i < p.len() && p[i] != '['
        invariant
            i <= p@.len(),
            forall|t: int| 0 <= t < i ==> p@[t] != '[',
            0 <= first_pos(p@, '[') <= p@.len(),
            first_pos(p@, '[') < p@.len() ==> p@[first_pos(p@, '[')] == '[',
            forall|t: int| 0 <= t < first_pos(p@, '[') ==> p@[t] != '[',
        decreases p.len() - i,
    {
        i = i + 1;
    }
    i
}

fn step_to_css(p: &Vec<char>) -> (r: String)
    requires
        p@.contains('[') ==> first_pos(p@, '[') + 1 < p@.len(),
    ensures
        r@ == step_css(p@),
{
    proof {
        lemma_first_pos(p@, '[');
    }
    let b = first_bracket(p);
    if b < p.len() {
        proof {
            assert(p@.contains('['));
        }
        let el = string_of(chars_slice(p.as_slice(), 0, b).as_slice());
        let idx = string_of(chars_slice(p.as_slice(), b + 1, p.len() - 1).as_slice());
        match parse_unsigned(idx.as_str(), 0xffff_ffff) {
            Some(n) => {
                if n == 1 {
                    el
                } else {
                    let mut s = el;
                    append_str(&mut s, ":nth-of-type(");
                    let t = u64_text(n);
                    append_str(&mut s, t.as_str());
                    append_str(&mut s, ")");
                    s
                }
            },
            None => el,
        }
    } else {
        proof {
            assert(!p@.contains('[')) by {
                if p@.contains('[') {
                    assert(first_pos(p@, '[') < p@.len());
                }
            }
        }
        string_of(p.as_slice())
    }
}

/// Converts an XPath to a CSS selector (best effort): an id lookup becomes
/// `#id`, a path becomes its steps joined by ` > `.
pub fn xpath_to_css(xpath: &str) -> (r: String)
    requires
        xpath_convertible(xpath@),
    ensures
        r@ == xpath_css(xpath@),
{
    proof {
        reveal_strlit("//*[@id=\"");
        reveal_strlit("//*[@id='");
    }
    let v = chars_of(xpath);
    let dq = chars_has_prefix(v.as_slice(), chars_of("//*[@id=\"").as_slice()) && chars_has_suffix(
        v.as_slice(),
        chars_of("\"]").as_slice(),
    );
    let sq = chars_has_prefix(v.as_slice(), chars_of("//*[@id='").as_slice()) && chars_has_suffix(
        v.as_slice(),
        chars_of("']").as_slice(),
    );
    if dq || sq {
        let mut s = owned("#");
        let inner = string_of(chars_slice(v.as_slice(), 9, v.len() - 2).as_slice());
        append_str(&mut s, inner.as_str());
        return s;
    }
    let parts = split_chars(v.as_slice(), '/');
    let ghost sp = split_on(xpath@, '/');
    let ghost pred = |p: Seq<char>| kept_step(p);
    let ghost f = |p: Seq<char>| step_css(p);
    let mut out: Vec<String> = Vec::new();
    let mut k: usize = 0;
    proof {
        reveal_strlit("*");
    }
    while k < parts.len()
        invariant
            k <= parts@.len(),
            parts@.len() == sp.len(),
            forall|t: int| 0 <= t < parts@.len() ==> (#[trigger] parts@[t])@ == sp[t],
            sp == split_on(xpath@, '/'),
            xpath_convertible(xpath@),
            !(is_dq_id_path(xpath@) || is_sq_id_path(xpath@)),
            pred == (|p: Seq<char>| kept_step(p)),
            f == (|p: Seq<char>| step_css(p)),
            texts(out@) == sp.take(k as int).filter(pred).map_values(f),
        decreases parts.len() - k,
    {
        let p = &parts[k];
        proof {
            assert(sp.take(k + 1) =~= sp.take(k as int).push(sp[k as int]));
            sp.take(k as int).lemma_filter_push(sp[k as int], pred);
        }
        let star = p.len() == 1 && p[0] == '*';
        proof {
            reveal_strlit("*");
            if p@.len() == 1 && p@[0] == '*' {
                assert(p@ =~= "*"@);
            }
            if p@ == "*"@ {
                assert(p@.len() == 1 && p@[0] == '*');
            }
        }
        if p.len() > 0 && !star {
            proof {
                assert(kept_step(sp[k as int]));
                if p@.contains('[') {
                    assert(first_pos(sp[k as int], '[') + 1 < sp[k as int].len());
                }
            }
            let c = step_to_css(p);
            let ghost o0 = texts(out@);
            out.push(c);
            proof {
                assert(texts(out@) =~= o0.push(step_css(sp[k as int])));
                assert(sp.take(k as int).filter(pred).push(sp[k as int]).map_values(f) =~= sp.take(k as int).filter(pred).map_values(
                    f,
                ).push(f(sp[k as int])));
            }
        }
        k = k + 1;
    }
    proof {
        assert(sp.take(sp.len() as int) =~= sp);
    }
    join_strings(&out, " > ")
}

/// A browser event captured while recording, with the attributes of its element.
#[derive(Debug)]
pub struct RawEvent {
    pub event_type: String,
    pub timestamp: Option<i64>,
    pub tag_name: Option<String>,
    pub id: Option<String>,
    pub name: Option<String>,
    pub class_name: Option<String>,
    pub input_type: Option<String>,
    pub placeholder: Option<String>,
    pub data_testid: Option<String>,
    pub aria_label: Option<String>,
    pub role: Option<String>,
    pub href: Option<String>,
    pub action: Option<String>,
    pub text_content: Option<String>,
    pub xpath: Option<String>,
    pub css_path: Option<String>,
    pub is_password: Option<bool>,
    pub value: Option<String>,
}

/// Kinds of selector.
#[derive(Clone, Copy, Debug, PartialEq, Eq, Structural)]
pub enum SelectorType {
    Css,
}

/// A fallback selector.
#[derive(Debug)]
pub struct AlternativeSelector {
    pub value: String,
    pub selector_type: SelectorType,
    pub priority: u8,
}

/// A selector with its priority and up to three fallbacks.
#[derive(Debug)]
pub struct SmartSelector {
    pub value: String,
    pub selector_type: SelectorType,
    pub priority: u8,
    pub alternatives: Vec<AlternativeSelector>,
}

/// The text of an attribute that is present and not empty.
pub open spec fn filled(o: Option<String>) -> Option<Seq<char>> {
    match o {
        Some(s) => if s@.len() > 0 { Some(s@) } else { None },
        None => None,
    }
}

/// `[<attr>="<v>"]`.
pub open spec fn attr_sel(attr: Seq<char>, v: Seq<char>) -> Seq<char> {
    "["@ + attr + "=\""@ + v + "\"]"@
}

/// What follows the third `/` of a URL (its path without the leading slash), or
/// nothing when there are fewer slashes.
pub open spec fn after_slashes(s: Seq<char>, k: nat) -> Seq<char>
    decreases k,
{
    if k == 0 {
        s
    } else if s.contains('/') {
        let i = first_pos(s, '/');
        after_slashes(s.subrange(i + 1, s.len() as int), (k - 1) as nat)
    } else {
        Seq::empty()
    }
}

/// The tag of the event's element (`*` when unknown).
pub open spec fn tag_of(e: RawEvent) -> Seq<char> {
    match e.tag_name {
        Some(t) => t@,
        None => "*"@,
    }
}

/// A one-candidate list for `Some`, an empty one for `None`.
pub open spec fn cand(o: Option<Seq<char>>, p: u8) -> Seq<(u8, Seq<char>)> {
    match o {
        Some(v) => seq![(p, v)],
        None => Seq::empty(),
    }
}

/// The id candidate (100), unless the id looks generated.
pub open spec fn id_cand(e: RawEvent, id_bytes: nat) -> Option<Seq<char>> {
    match filled(e.id) {
        Some(i) => if !dynamic_id(i, id_bytes) { Some("#"@ + i) } else { None },
        None => None,
    }
}

/// The placeholder candidate (70), with the input type when it is known.
pub open spec fn placeholder_cand(e: RawEvent) -> Option<Seq<char>> {
    let tag = tag_of(e);
    match (e.input_type, e.placeholder) {
        (Some(it), Some(ph)) => if ph@.len() > 0 {
            Some(tag + attr_sel("type"@, it@) + attr_sel("placeholder"@, ph@))
        } else {
            None
        },
        (_, ph) => match filled(ph) {
            Some(p) => Some(tag + attr_sel("placeholder"@, p)),
            None => None,
        },
    }
}

/// The form action candidate (60): the action's path for a form element.
pub open spec fn action_cand(e: RawEvent) -> Option<Seq<char>> {
    match filled(e.action) {
        Some(a) => if tag_of(e) == "form"@ {
            let path = if is_prefix("http"@, a) { after_slashes(a, 3) } else { a };
            if path.len() > 0 { Some("form[action*=\""@ + path + "\"]"@) } else { None }
        } else {
            None
        },
        None => None,
    }
}

/// A candidate `<tag>[<attr>="<v>"]` for a filled attribute.
pub open spec fn tag_attr_cand(e: RawEvent, attr: Seq<char>, o: Option<String>) -> Option<Seq<char>> {
    match filled(o) {
        Some(v) => Some(tag_of(e) + attr_sel(attr, v)),
        None => None,
    }
}

/// The first class of a class list: the text before its first space.
pub open spec fn first_class(c: Seq<char>) -> Seq<char> {
    c.subrange(0, first_pos(c, ' '))
}

/// The class candidate (50): `<tag>.<first class>`, when the element names a class.
pub open spec fn class_cand(e: RawEvent) -> Option<Seq<char>> {
    match filled(e.class_name) {
        Some(c) => if first_class(c).len() > 0 {
            Some(tag_of(e) + "."@ + first_class(c))
        } else {
            None
        },
        None => None,
    }
}

/// The candidates from the element's attributes, highest priority first.
pub open spec fn attribute_candidates(e: RawEvent, id_bytes: nat) -> Seq<(u8, Seq<char>)> {
    cand(id_cand(e, id_bytes), 100) + cand(
        match filled(e.data_testid) {
            Some(t) => Some(attr_sel("data-testid"@, t)),
            None => None,
        },
        95,
    ) + cand(tag_attr_cand(e, "name"@, e.name), 90) + cand(placeholder_cand(e), 70) + cand(
        tag_attr_cand(e, "aria-label"@, e.aria_label),
        65,
    ) + cand(action_cand(e), 60) + cand(tag_attr_cand(e, "role"@, e.role), 50) + cand(class_cand(e), 50)
        + cand(filled(e.css_path), 10)
}

/// The candidate selectors of an event with their priorities, highest first:
/// id (100, unless generated), test id (95), name (90), placeholder (70, with
/// the input type when known), aria label (65), form action (60), role (50),
/// class (50), CSS path (10); the XPath converted to CSS (5) only when there is no other.
pub open spec fn candidates(e: RawEvent, id_bytes: nat) -> Seq<(u8, Seq<char>)> {
    let all = attribute_candidates(e, id_bytes);
    if all.len() == 0 {
        match e.xpath {
            Some(x) => seq![(5u8, xpath_css(x@))],
            None => Seq::empty(),
        }
    } else {
        all
    }
}

/// The smart selector is the first candidate, with the next (at most three) as
/// CSS alternatives in order.
pub open spec fn is_selector_of(s: SmartSelector, c: Seq<(u8, Seq<char>)>) -> bool {
    &&& c.len() > 0
    &&& s.value@ == c[0].1
    &&& s.priority == c[0].0
    &&& s.selector_type == SelectorType::Css
    &&& s.alternatives@.len() == (if c.len() - 1 < 3 { c.len() - 1 } else { 3 })
    &&& forall|j: int|
        0 <= j < s.alternatives@.len() ==> {
            &&& (#[trigger] s.alternatives@[j]).value@ == c[j + 1].1
            &&& s.alternatives@[j].priority == c[j + 1].0
            &&& s.alternatives@[j].selector_type == SelectorType::Css
        }
}

/// The event can be turned into selectors without a slicing panic.
pub open spec fn event_convertible(e: RawEvent) -> bool {
    match e.xpath {
        Some(x) => xpath_convertible(x@),
        None => true,
    }
}

fn filled_text(o: &Option<String>) -> (r: Option<&String>)
    ensures
        match r {
            Some(s) => filled(*o) == Some(s@),
            None => filled(*o) is None,
        },
{
    match o {
        Some(s) => {
            if s.as_str().is_empty() {
                None
            } else {
                Some(s)
            }
        },
        None => None,
    }
}

fn attr_text(attr: &str, v: &str) -> (r: String)
    ensures
        r@ == attr_sel(attr@, v@),
{
    let mut s = owned("[");
    append_str(&mut s, attr);
    append_str(&mut s, "=\"");
    append_str(&mut s, v);
    append_str(&mut s, "\"]");
    s
}

fn after_three_slashes(a: &str) -> (r: String)
    ensures
        r@ == after_slashes(a@, 3),
{
    let mut v = chars_of(a);
    let mut k: usize = 3;
    while k > 0
        invariant
            k <= 3,
            after_slashes(v@, k as nat) == after_slashes(a@, 3),
        decreases k,
    {
        proof {
            lemma_first_pos(v@, '/');
        }
        let mut i: usize = 0;
        while i < v.len() && v[i] != '/'
            invariant
                i <= v@.len(),
                forall|t: int| 0 <= t < i ==> v@[t] != '/',
            decreases v.len() - i,
        {
            i = i + 1;
        }
        if i == v.len() {
            proof {
                assert(!v@.contains('/')) by {
                    if v@.contains('/') {
                        let t = choose|t: int| 0 <= t < v@.len() && v@[t] == '/';
                        assert(v@[t] != '/');
                    }
                }
            }
            let e = String::new();
            proof {
                assert(e@ =~= Seq::<char>::empty());
            }
            return e;
        }
        proof {
            assert(v@.contains('/'));
            let f = first_pos(v@, '/');
            if f < i {
                assert(v@[f] == '/');
            }
            assert(f == i);
        }
        v = chars_slice(v.as_slice(), i + 1, v.len());
        k = k - 1;
    }
    string_of(v.as_slice())
}

/// The candidates as their mathematical values.
pub open spec fn cand_views(v: Seq<(u8, String)>) -> Seq<(u8, Seq<char>)> {
    v.map_values(|p: (u8, String)| (p.0, p.1@))
}

fn push_cand(v: &mut Vec<(u8, String)>, o: Option<String>, p: u8)
    ensures
        cand_views(final(v)@) == cand_views(old(v)@) + cand(
            match o {
                Some(s) => Some(s@),
                None => None,
            },
            p,
        ),
{
    let ghost v0 = old(v)@;
    match o {
        Some(s) => {
            v.push((p, s));
            proof {
                assert(cand_views(v@) =~= cand_views(v0) + cand(Some(s@), p));
            }
        },
        None => {
            proof {
                assert(cand_views(v@) =~= cand_views(v0) + cand(None, p));
            }
        },
    }
}

fn tag_text(e: &RawEvent) -> (r: String)
    ensures
        r@ == tag_of(*e),
{
    match &e.tag_name {
        Some(t) => t.clone(),
        None => owned("*"),
    }
}

fn tag_attr_text(e: &RawEvent, attr: &str, o: &Option<String>) -> (r: Option<String>)
    ensures
        match r {
            Some(s) => tag_attr_cand(*e, attr@, *o) == Some(s@),
            None => tag_attr_cand(*e, attr@, *o) is None,
        },
{
    match filled_text(o) {
        Some(v) => {
            let mut s = tag_text(e);
            let a = attr_text(attr, v.as_str());
            append_str(&mut s, a.as_str());
            Some(s)
        },
        None => None,
    }
}

fn id_text(e: &RawEvent) -> (r: Option<String>)
    ensures
        match r {
            Some(s) => id_cand(*e, match e.id {
                Some(i) => byte_len(i@),
                None => 0,
            }) == Some(s@),
            None => id_cand(*e, match e.id {
                Some(i) => byte_len(i@),
                None => 0,
            }) is None,
        },
{
    match filled_text(&e.id) {
        Some(i) => {
            if !is_dynamic_id(i.as_str()) {
                let mut s = owned("#");
                append_str(&mut s, i.as_str());
                Some(s)
            } else {
                None
            }
        },
        None => None,
    }
}

fn placeholder_text(e: &RawEvent) -> (r: Option<String>)
    ensures
        match r {
            Some(s) => placeholder_cand(*e) == Some(s@),
            None => placeholder_cand(*e) is None,
        },
{
    match (&e.input_type, &e.placeholder) {
        (Some(it), Some(ph)) => {
            if !ph.as_str().is_empty() {
                let mut s = tag_text(e);
                let a = attr_text("type", it.as_str());
                append_str(&mut s, a.as_str());
                let b = attr_text("placeholder", ph.as_str());
                append_str(&mut s, b.as_str());
                Some(s)
            } else {
                None
            }
        },
        (_, ph) => {
            match filled_text(ph) {
                Some(p) => {
                    let mut s = tag_text(e);
                    let a = attr_text("placeholder", p.as_str());
                    append_str(&mut s, a.as_str());
                    Some(s)
                },
                None => None,
            }
        },
    }
}

fn action_text(e: &RawEvent) -> (r: Option<String>)
    ensures
        match r {
            Some(s) => action_cand(*e) == Some(s@),
            None => action_cand(*e) is None,
        },
{
    match filled_text(&e.action) {
        Some(a) => {
            let tag = tag_text(e);
            if crate::text::str_eq(tag.as_str(), "form") {
                let av = chars_of(a.as_str());
                let path = if chars_has_prefix(av.as_slice(), chars_of("http").as_slice()) {
                    after_three_slashes(a.as_str())
                } else {
                    a.clone()
                };
                if !path.as_str().is_empty() {
                    let mut s = owned("form[action*=\"");
                    append_str(&mut s, path.as_str());
                    append_str(&mut s, "\"]");
                    Some(s)
                } else {
                    None
                }
            } else {
                None
            }
        },
        None => None,
    }
}

fn class_text(e: &RawEvent) -> (r: Option<String>)
    ensures
        match r {
            Some(s) => class_cand(*e) == Some(s@),
            None => class_cand(*e) is None,
        },
{
    match filled_text(&e.class_name) {
        Some(c) => {
            let v = chars_of(c.as_str());
            proof {
                lemma_first_pos(v@, ' ');
            }
            let mut i: usize = 0;
            while i < v.len() && v[i] != ' '
                invariant
                    i <= v@.len(),
                    forall|t: int| 0 <= t < i ==> v@[t] != ' ',
                decreases v.len() - i,
            {
                i = i + 1;
            }
            proof {
                let f = first_pos(v@, ' ');
                if i < v.len() {
                    assert(v@.contains(' '));
                    if f < i {
                        assert(v@[f] == ' ');
                    }
                } else if f < v@.len() {
                    assert(v@[f] == ' ');
                }
                assert(f == i);
            }
            if i == 0 {
                None
            } else {
                let first = string_of(chars_slice(v.as_slice(), 0, i).as_slice());
                let mut s = tag_text(e);
                append_str(&mut s, ".");
                append_str(&mut s, first.as_str());
                Some(s)
            }
        },
        None => None,
    }
}

fn attribute_cands(e: &RawEvent) -> (r: Vec<(u8, String)>)
    ensures
        cand_views(r@) == attribute_candidates(*e, match e.id {
            Some(i) => byte_len(i@),
            None => 0,
        }),
{
    let mut c: Vec<(u8, String)> = Vec::new();
    proof {
        assert(cand_views(c@) =~= Seq::<(u8, Seq<char>)>::empty());
    }
    push_cand(&mut c, id_text(e), 100);
    let t = match filled_text(&e.data_testid) {
        Some(t) => Some(attr_text("data-testid", t.as_str())),
        None => None,
    };
    push_cand(&mut c, t, 95);
    push_cand(&mut c, tag_attr_text(e, "name", &e.name), 90);
    push_cand(&mut c, placeholder_text(e), 70);
    push_cand(&mut c, tag_attr_text(e, "aria-label", &e.aria_label), 65);
    push_cand(&mut c, action_text(e), 60);
    push_cand(&mut c, tag_attr_text(e, "role", &e.role), 50);
    push_cand(&mut c, class_text(e), 50);
    let css = match filled_text(&e.css_path) {
        Some(c) => Some(c.clone()),
        None => None,
    };
    push_cand(&mut c, css, 10);
    c
}

/// The smart selector of an event, if it has any candidate.
pub fn build_smart_selector(event: &RawEvent) -> (r: Option<SmartSelector>)
    requires
        event_convertible(*event),
    ensures
        ({
            let c = candidates(
                *event,
                match event.id {
                    Some(i) => byte_len(i@),
                    None => 0,
                },
            );
            &&& c.len() == 0 ==> r is None
            &&& c.len() > 0 ==> (r matches Some(s) && is_selector_of(s, c))
        }),
{
    let mut cands = attribute_cands(event);
    if cands.len() == 0 {
        match &event.xpath {
            Some(x) => {
                let ghost c0 = cands@;
                cands.push((5u8, xpath_to_css(x.as_str())));
                proof {
                    assert(cand_views(cands@) =~= seq![(5u8, xpath_css(x@))]);
                }
            },
            None => {},
        }
    }
    let ghost cv = cand_views(cands@);
    if cands.len() == 0 {
        return None;
    }
    let (priority, value) = cands.remove(0);
    let mut alts: Vec<AlternativeSelector> = Vec::new();
    let mut j: usize = 0;
    while j < cands.len() && j < 3
        invariant
            j <= cands@.len(),
            j <= 3,
            alts@.len() == j,
            cands@.len() + 1 == cv.len(),
            forall|t: int| 0 <= t < cands@.len() ==> (#[trigger] cands@[t]).1@ == cv[t + 1].1 && cands@[t].0 == cv[t + 1].0,
            forall|t: int|
                0 <= t < j ==> {
                    &&& (#[trigger] alts@[t]).value@ == cv[t + 1].1
                    &&& alts@[t].priority == cv[t + 1].0
                    &&& alts@[t].selector_type == SelectorType::Css
                },
        decreases cands.len() - j,
    {
        alts.push(AlternativeSelector { value: cands[j].1.clone(), selector_type: SelectorType::Css, priority: cands[j].0 });
        j = j + 1;
    }
    Some(SmartSelector { value, selector_type: SelectorType::Css, priority, alternatives: alts })
}

} // verus!
