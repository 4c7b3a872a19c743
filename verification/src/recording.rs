//! Flow recording: the recording session's state, navigation tracking, and the
//! conversion of recorded browser events into flow steps.

pub mod selectors;
pub mod steps;

use vstd::prelude::*;
use crate::scope::{before_char, chars_before};
use crate::text::{
    append_str, chars_contain, chars_has_prefix, chars_has_suffix, chars_of, contains_text, is_prefix, is_suffix,
    lowercase_text, owned, split_chars, split_on, str_eq, string_of, to_lowercase,
};
use steps::FlowStep;

verus! {

/// State of the recording session.
#[derive(Debug, PartialEq)]
pub enum RecordingState {
    Idle,
    Starting,
    Recording { profile_id: String },
    Stopping,
    Failed { error: String },
}

impl RecordingState {
    /// A copy of this state.
    pub fn duplicate(&self) -> (r: RecordingState)
        ensures
            r == *self,
    {
        match self {
            RecordingState::Idle => RecordingState::Idle,
            RecordingState::Starting => RecordingState::Starting,
            RecordingState::Recording { profile_id } => RecordingState::Recording { profile_id: profile_id.clone() },
            RecordingState::Stopping => RecordingState::Stopping,
            RecordingState::Failed { error } => RecordingState::Failed { error: error.clone() },
        }
    }
}

impl Default for RecordingState {
    fn default() -> (r: RecordingState)
        ensures
            r == RecordingState::Idle,
    {
        RecordingState::Idle
    }
}

/// The recording in progress.
#[derive(Debug)]
pub struct RecordingSessionInfo {
    pub profile_id: String,
    pub start_url: String,
    pub event_count: usize,
    /// Seconds since the epoch.
    pub started_at: i64,
}

impl RecordingSessionInfo {
    /// A copy of this record.
    pub fn duplicate(&self) -> (r: RecordingSessionInfo)
        ensures
            r == *self,
    {
        RecordingSessionInfo {
            profile_id: self.profile_id.clone(),
            start_url: self.start_url.clone(),
            event_count: self.event_count,
            started_at: self.started_at,
        }
    }
}

/// Where a navigation was seen.
#[derive(Clone, Copy, Debug, PartialEq, Eq, Structural)]
pub enum NavigationSource {
    /// Reported by the page itself (authoritative).
    Browser,
    /// Inferred from proxied traffic.
    Proxy,
}

/// A page visited during recording.
#[derive(Debug)]
pub struct NavigationEvent {
    pub url: String,
    /// Milliseconds since the epoch.
    pub timestamp: i64,
    pub nav_type: Option<String>,
    pub source: NavigationSource,
}

/// The domain of a URL: the scheme (`https://`, else `http://`) removed, cut at
/// the first `/` and then at the first `:`, lowercased.
pub open spec fn domain_of(url: Seq<char>) -> Seq<char> {
    let rest = if is_prefix("https://"@, url) {
        url.subrange(8, url.len() as int)
    } else if is_prefix("http://"@, url) {
        url.subrange(7, url.len() as int)
    } else {
        url
    };
    lowercase_text(before_char(before_char(rest, '/'), ':'))
}

/// Extracts the domain of a URL (see `domain_of`).
pub fn extract_domain(url: &str) -> (r: Option<String>)
    ensures
        r matches Some(d) && d@ == domain_of(url@),
{
    proof {
        reveal_strlit("https://");
        reveal_strlit("http://");
    }
    let v = chars_of(url);
    let rest = if chars_has_prefix(v.as_slice(), chars_of("https://").as_slice()) {
        crate::text::chars_slice(v.as_slice(), 8, v.len())
    } else if chars_has_prefix(v.as_slice(), chars_of("http://").as_slice()) {
        crate::text::chars_slice(v.as_slice(), 7, v.len())
    } else {
        v
    };
    let a = chars_before(rest.as_slice(), '/');
    let b = chars_before(a.as_slice(), ':');
    let s = string_of(b.as_slice());
    Some(to_lowercase(s.as_str()))
}

/// Two-part suffixes that count as one top-level domain.
pub open spec fn compound_tld(s: Seq<char>) -> bool {
    s == "co.uk"@ || s == "com.au"@ || s == "co.nz"@ || s == "com.br"@ || s == "co.jp"@
}

/// The site of a domain: its last two labels, or three when the last two form a
/// compound top-level domain such as `co.uk`; a domain without a dot is its own site.
pub open spec fn site_of_domain(d: Seq<char>) -> Seq<char> {
    let parts = split_on(d, '.');
    let n = parts.len();
    if n >= 2 {
        let last_two = parts[n - 2] + "."@ + parts[n - 1];
        if compound_tld(last_two) && n >= 3 {
            parts[n - 3] + "."@ + last_two
        } else {
            last_two
        }
    } else {
        d
    }
}

/// The site (eTLD+1) of a URL.
pub open spec fn site_of(url: Seq<char>) -> Seq<char> {
    site_of_domain(domain_of(url))
}

/// Extracts the site (eTLD+1) of a URL, so that subdomains count as the same site.
pub fn extract_etld_plus_one(url: &str) -> (r: Option<String>)
    ensures
        r matches Some(s) && s@ == site_of(url@),
{
    let d = match extract_domain(url) {
        Some(d) => d,
        None => return None,
    };
    let dv = chars_of(d.as_str());
    let parts = split_chars(dv.as_slice(), '.');
    let n = parts.len();
    if n >= 2 {
        let mut last_two = string_of(parts[n - 2].as_slice());
        append_str(&mut last_two, ".");
        let t = string_of(parts[n - 1].as_slice());
        append_str(&mut last_two, t.as_str());
        let lt = last_two.as_str();
        let compound = str_eq(lt, "co.uk") || str_eq(lt, "com.au") || str_eq(lt, "co.nz") || str_eq(lt, "com.br")
            || str_eq(lt, "co.jp");
        if compound && n >= 3 {
            let mut s = string_of(parts[n - 3].as_slice());
            append_str(&mut s, ".");
            append_str(&mut s, lt);
            Some(s)
        } else {
            Some(last_two)
        }
    } else {
        Some(d)
    }
}

/// Domains whose traffic is never a page of the recorded site (browser
/// services, analytics, social widgets).
pub open spec fn noise_domains() -> Seq<Seq<char>> {
    seq![
        "googleapis.com"@, "gstatic.com"@, "google.com"@, "googleusercontent.com"@,
        "chrome-devtools-frontend.appspot.com"@, "chromium.org"@, "gvt1.com"@, "gvt2.com"@, "gvt3.com"@,
        "doubleclick.net"@, "googleadservices.com"@, "googlesyndication.com"@, "facebook.com"@, "fbcdn.net"@,
        "analytics."@, "segment."@, "hotjar."@, "newrelic."@, "sentry."@,
    ]
}

/// Extensions of static assets, which are never pages.
pub open spec fn static_extensions() -> Seq<Seq<char>> {
    seq![
        ".js"@, ".css"@, ".png"@, ".jpg"@, ".jpeg"@, ".gif"@, ".svg"@, ".ico"@, ".woff"@, ".woff2"@, ".ttf"@,
        ".eot"@, ".map"@, ".mp3"@, ".mp4"@, ".webm"@, ".webp"@, ".pdf"@, ".zip"@,
    ]
}

/// The URL mentions a noise domain.
pub open spec fn is_noise(url: Seq<char>) -> bool {
    exists|k: int| 0 <= k < noise_domains().len() && contains_text(url, #[trigger] noise_domains()[k])
}

/// The URL's path (before any `?`), lowercased, ends in a static asset extension.
pub open spec fn is_static_asset(url: Seq<char>) -> bool {
    exists|k: int| 0 <= k < static_extensions().len() && is_suffix(
        #[trigger] static_extensions()[k],
        lowercase_text(before_char(url, '?')),
    )
}

/// Traffic to `url` is a page navigation worth recording: not an error
/// response, not a noise domain, on the same site as the start URL (when one is
/// known), not a static asset, and either HTML, a redirect, or a path whose last
/// segment has no extension.
pub open spec fn is_page_navigation(
    start_url: Option<Seq<char>>,
    url: Seq<char>,
    content_type: Option<Seq<char>>,
    status_code: u16,
) -> bool {
    let path = before_char(url, '?');
    &&& status_code < 400
    &&& !is_noise(url)
    &&& (start_url matches Some(s) ==> site_of(s) == site_of(url))
    &&& !is_static_asset(url)
    &&& ({
        ||| (content_type matches Some(ct) && contains_text(ct, "text/html"@))
        ||| (300 <= status_code && status_code < 400)
        ||| !split_on(path, '/').last().contains('.')
    })
}

fn any_contained(url: &Vec<char>, list: &Vec<Vec<char>>) -> (r: bool)
    ensures
        r == exists|k: int| 0 <= k < list@.len() && contains_text(url@, (#[trigger] list@[k])@),
{
    let mut k: usize = 0;
    while k < list.len()
        invariant
            k <= list@.len(),
            forall|t: int| 0 <= t < k ==> !contains_text(url@, (#[trigger] list@[t])@),
        decreases list.len() - k,
    {
        if chars_contain(url.as_slice(), list[k].as_slice()) {
            return true;
        }
        k = k + 1;
    }
    false
}

fn any_suffix(s: &Vec<char>, list: &Vec<Vec<char>>) -> (r: bool)
    ensures
        r == exists|k: int| 0 <= k < list@.len() && is_suffix((#[trigger] list@[k])@, s@),
{
    let mut k: usize = 0;
    while k < list.len()
        invariant
            k <= list@.len(),
            forall|t: int| 0 <= t < k ==> !is_suffix((#[trigger] list@[t])@, s@),
        decreases list.len() - k,
    {
        if chars_has_suffix(s.as_slice(), list[k].as_slice()) {
            return true;
        }
        k = k + 1;
    }
    false
}

fn noise_list() -> (r: Vec<Vec<char>>)
    ensures
        r@.len() == noise_domains().len(),
        forall|k: int| 0 <= k < r@.len() ==> (#[trigger] r@[k])@ == noise_domains()[k],
{
    let r = vec![
        chars_of("googleapis.com"), chars_of("gstatic.com"), chars_of("google.com"), chars_of("googleusercontent.com"),
        chars_of("chrome-devtools-frontend.appspot.com"), chars_of("chromium.org"), chars_of("gvt1.com"),
        chars_of("gvt2.com"), chars_of("gvt3.com"), chars_of("doubleclick.net"), chars_of("googleadservices.com"),
        chars_of("googlesyndication.com"), chars_of("facebook.com"), chars_of("fbcdn.net"), chars_of("analytics."),
        chars_of("segment."), chars_of("hotjar."), chars_of("newrelic."), chars_of("sentry."),
    ];
    r
}

fn extension_list() -> (r: Vec<Vec<char>>)
    ensures
        r@.len() == static_extensions().len(),
        forall|k: int| 0 <= k < r@.len() ==> (#[trigger] r@[k])@ == static_extensions()[k],
{
    let r = vec![
        chars_of(".js"), chars_of(".css"), chars_of(".png"), chars_of(".jpg"), chars_of(".jpeg"), chars_of(".gif"),
        chars_of(".svg"), chars_of(".ico"), chars_of(".woff"), chars_of(".woff2"), chars_of(".ttf"), chars_of(".eot"),
        chars_of(".map"), chars_of(".mp3"), chars_of(".mp4"), chars_of(".webm"), chars_of(".webp"), chars_of(".pdf"),
        chars_of(".zip"),
    ];
    r
}

/// Whether traffic to `url` is a page navigation worth recording (see
/// `is_page_navigation`).
pub fn should_track_navigation(
    start_url: Option<&str>,
    url: &str,
    content_type: Option<&str>,
    status_code: u16,
) -> (r: bool)
    ensures
        r == is_page_navigation(
            match start_url {
                Some(s) => Some(s@),
                None => None,
            },
            url@,
            match content_type {
                Some(c) => Some(c@),
                None => None,
            },
            status_code,
        ),
{
    if status_code >= 400 {
        return false;
    }
    let v = chars_of(url);
    let noise = noise_list();
    let noisy = any_contained(&v, &noise);
    proof {
        if noisy {
            let k = choose|k: int| 0 <= k < noise@.len() && contains_text(v@, (#[trigger] noise@[k])@);
            assert(contains_text(url@, noise_domains()[k]));
        }
        if is_noise(url@) {
            let k = choose|k: int| 0 <= k < noise_domains().len() && contains_text(url@, #[trigger] noise_domains()[k]);
            assert(contains_text(v@, noise@[k]@));
        }
    }
    if noisy {
        return false;
    }
    match start_url {
        Some(s) => {
            let a = extract_etld_plus_one(s);
            let b = extract_etld_plus_one(url);
            match (a, b) {
                (Some(x), Some(y)) => {
                    if !str_eq(x.as_str(), y.as_str()) {
                        return false;
                    }
                },
                _ => {},
            }
        },
        None => {},
    }
    let path = chars_before(v.as_slice(), '?');
    let path_s = string_of(path.as_slice());
    let lower = to_lowercase(path_s.as_str());
    let lower_v = chars_of(lower.as_str());
    let exts = extension_list();
    let asset = any_suffix(&lower_v, &exts);
    proof {
        assert(lower_v@ == lowercase_text(before_char(url@, '?')));
        if asset {
            let k = choose|k: int| 0 <= k < exts@.len() && is_suffix((#[trigger] exts@[k])@, lower_v@);
            assert(is_suffix(static_extensions()[k], lower_v@));
        }
        if is_static_asset(url@) {
            let k = choose|k: int| 0 <= k < static_extensions().len() && is_suffix(
                #[trigger] static_extensions()[k],
                lowercase_text(before_char(url@, '?')),
            );
            assert(is_suffix(exts@[k]@, lower_v@));
        }
    }
    if asset {
        return false;
    }
    let html = match content_type {
        Some(ct) => {
            let cv = chars_of(ct);
            chars_contain(cv.as_slice(), chars_of("text/html").as_slice())
        },
        None => false,
    };
    let redirect = 300 <= status_code && status_code < 400;
    let segs = split_chars(path.as_slice(), '/');
    proof {
        crate::text::lemma_split_nonempty(path@, '/');
    }
    let last = &segs[segs.len() - 1];
    let no_ext = !crate::text::chars_contain_char(last.as_slice(), '.');
    proof {
        reveal_strlit("text/html");
        assert(last@ == split_on(before_char(url@, '?'), '/').last());
    }
    html || redirect || no_ext
}

/// A browser-reported navigation that becomes a navigate step: after the first
/// browser navigation, not under the start URL, and not the initial load.
pub open spec fn replayed_navigation(n: NavigationEvent, start_url: Option<String>) -> bool {
    &&& !(start_url matches Some(s) && is_prefix(s@, n.url@))
    &&& !(n.nav_type matches Some(t) && t@ == "initial_load"@)
}

/// The navigate steps the browser-reported navigations give.
pub open spec fn navigate_steps(nav: Seq<NavigationEvent>, start_url: Option<String>) -> Seq<FlowStep> {
    let browser = nav.filter(|n: NavigationEvent| n.source == NavigationSource::Browser);
    browser.skip(1).filter(|n: NavigationEvent| replayed_navigation(n, start_url)).map_values(
        |n: NavigationEvent| FlowStep::Navigate { url: n.url },
    )
}

/// The recorded steps with a navigate step in front for every page the browser
/// reported after the first (see `replayed_navigation`); unchanged when the
/// browser reported at most one page.
pub open spec fn merged_steps(nav: Seq<NavigationEvent>, steps: Seq<FlowStep>, start_url: Option<String>) -> Seq<FlowStep> {
    let browser = nav.filter(|n: NavigationEvent| n.source == NavigationSource::Browser);
    if browser.len() <= 1 {
        steps
    } else {
        navigate_steps(nav, start_url) + steps
    }
}

/// Puts navigate steps for the browser-reported pages in front of the recorded
/// steps (see `merged_steps`).
pub fn merge_navigation_with_steps(
    nav_history: &Vec<NavigationEvent>,
    steps: Vec<FlowStep>,
    start_url: &Option<String>,
) -> (r: Vec<FlowStep>)
    ensures
        r@ == merged_steps(nav_history@, steps@, *start_url),
{
    let ghost bp = |n: NavigationEvent| n.source == NavigationSource::Browser;
    let ghost rp = |n: NavigationEvent| replayed_navigation(n, *start_url);
    let ghost f = |n: NavigationEvent| FlowStep::Navigate { url: n.url };
    let mut browser_count: usize = 0;
    let mut out: Vec<FlowStep> = Vec::new();
    let mut i: usize = 0;
    proof {
        reveal_strlit("initial_load");
    }
    while i < nav_history.len()
        invariant
            i <= nav_history@.len(),
            bp == (|n: NavigationEvent| n.source == NavigationSource::Browser),
            rp == (|n: NavigationEvent| replayed_navigation(n, *start_url)),
            f == (|n: NavigationEvent| FlowStep::Navigate { url: n.url }),
            browser_count == nav_history@.take(i as int).filter(bp).len(),
            browser_count >= 1 ==> out@ == nav_history@.take(i as int).filter(bp).skip(1).filter(rp).map_values(f),
            browser_count == 0 ==> out@.len() == 0,
        decreases nav_history.len() - i,
    {
        let n = &nav_history[i];
        let ghost pre = nav_history@.take(i as int);
        proof {
            assert(nav_history@.take(i + 1) =~= pre.push(nav_history@[i as int]));
            pre.lemma_filter_push(nav_history@[i as int], bp);
        }
        if n.source == NavigationSource::Browser {
            proof {
                let b0 = pre.filter(bp);
                if b0.len() >= 1 {
                    assert(b0.push(*n).skip(1) =~= b0.skip(1).push(*n));
                    b0.skip(1).lemma_filter_push(*n, rp);
                } else {
                    assert(b0.push(*n).skip(1) =~= Seq::<NavigationEvent>::empty());
                    assert(Seq::<NavigationEvent>::empty().filter(rp) =~= Seq::<NavigationEvent>::empty());
                }
            }
            if browser_count >= 1 {
                let is_start = match start_url {
                    Some(s) => {
                        let uv = chars_of(n.url.as_str());
                        chars_has_prefix(uv.as_slice(), chars_of(s.as_str()).as_slice())
                    },
                    None => false,
                };
                let is_initial = match &n.nav_type {
                    Some(t) => str_eq(t.as_str(), "initial_load"),
                    None => false,
                };
                if !is_start && !is_initial {
                    let ghost o0 = out@;
                    out.push(FlowStep::Navigate { url: n.url.clone() });
                    proof {
                        let b0 = pre.filter(bp);
                        assert(out@ =~= b0.skip(1).filter(rp).push(*n).map_values(f));
                    }
                } else {
                    proof {
                        let b0 = pre.filter(bp);
                        assert(!rp(*n));
                    }
                }
            }
            browser_count = browser_count + 1;
        }
        i = i + 1;
    }
    proof {
        assert(nav_history@.take(nav_history@.len() as int) =~= nav_history@);
    }
    if browser_count <= 1 || out.len() == 0 {
        proof {
            if browser_count > 1 {
                assert(navigate_steps(nav_history@, *start_url) =~= Seq::<FlowStep>::empty());
                assert(Seq::<FlowStep>::empty() + steps@ =~= steps@);
            }
        }
        return steps;
    }
    let mut steps = steps;
    let ghost s0 = steps@;
    let ghost o0 = out@;
    out.append(&mut steps);
    proof {
        assert(out@ =~= o0 + s0);
    }
    out
}

/// The recording service's state: the session state, the recording in progress,
/// and the pages visited during it.
#[derive(Debug)]
pub struct RecordingSession {
    pub state: RecordingState,
    pub session_info: Option<RecordingSessionInfo>,
    pub navigation_history: Vec<NavigationEvent>,
}

impl RecordingSession {
    /// An idle session with nothing recorded.
    pub fn new() -> (r: RecordingSession)
        ensures
            r.state == RecordingState::Idle,
            r.session_info is None,
            r.navigation_history@.len() == 0,
    {
        RecordingSession { state: RecordingState::Idle, session_info: None, navigation_history: Vec::new() }
    }

    /// A copy of the current state.
    pub fn get_state(&self) -> (r: RecordingState)
        ensures
            r == self.state,
    {
        self.state.duplicate()
    }

    /// A copy of the recording in progress, if any.
    pub fn get_session_info(&self) -> (r: Option<RecordingSessionInfo>)
        ensures
            r == self.session_info,
    {
        match &self.session_info {
            Some(i) => Some(i.duplicate()),
            None => None,
        }
    }

    /// Whether a recording is in progress.
    pub fn is_recording(&self) -> (r: bool)
        ensures
            r == (self.state is Recording),
    {
        match &self.state {
            RecordingState::Recording { .. } => true,
            _ => false,
        }
    }

    /// Records traffic to `url` as a visited page when a recording is in progress,
    /// the traffic is a page navigation (see `is_page_navigation`) and the page is
    /// not the last one recorded. Returns whether it was recorded.
    pub fn add_navigation_event(&mut self, url: &str, content_type: Option<&str>, status_code: u16, now_ms: i64) -> (r: bool)
        ensures
            final(self).state == old(self).state,
            final(self).session_info == old(self).session_info,
            r == (old(self).state is Recording && is_page_navigation(
                match old(self).session_info {
                    Some(i) => Some(i.start_url@),
                    None => None,
                },
                url@,
                match content_type {
                    Some(c) => Some(c@),
                    None => None,
                },
                status_code,
            ) && !(old(self).navigation_history@.len() > 0 && old(self).navigation_history@.last().url@ == url@)),
            r ==> final(self).navigation_history@ == old(self).navigation_history@.push(
                NavigationEvent {
                    url: final(self).navigation_history@.last().url,
                    timestamp: now_ms,
                    nav_type: None,
                    source: NavigationSource::Proxy,
                },
            ) && final(self).navigation_history@.last().url@ == url@,
            !r ==> final(self).navigation_history@ == old(self).navigation_history@,
    {
        if !self.is_recording() {
            return false;
        }
        let start: Option<&str> = match &self.session_info {
            Some(i) => Some(i.start_url.as_str()),
            None => None,
        };
        if !should_track_navigation(start, url, content_type, status_code) {
            return false;
        }
        let n = self.navigation_history.len();
        if n > 0 && str_eq(self.navigation_history[n - 1].url.as_str(), url) {
            return false;
        }
        self.navigation_history.push(
            NavigationEvent { url: owned(url), timestamp: now_ms, nav_type: None, source: NavigationSource::Proxy },
        );
        true
    }

    /// Prepares a new recording. A recording that is in progress with its browser
    /// still running is refused; one whose browser is gone is reset first. The
    /// session then moves to `Starting` with no pages recorded.
    pub fn begin_start(&mut self, browser_running: bool) -> (r: Result<(), String>)
        ensures
            (old(self).state is Recording && browser_running) ==> (r matches Err(e) && e@ == "Already recording"@
                && *final(self) == *old(self)),
            !(old(self).state is Recording && browser_running) ==> (r is Ok && final(self).state
                == RecordingState::Starting && final(self).navigation_history@.len() == 0),
            (old(self).state is Recording && !browser_running) ==> final(self).session_info is None,
            !(old(self).state is Recording) ==> final(self).session_info == old(self).session_info,
    {
        if self.is_recording() {
            if browser_running {
                return Err(owned("Already recording"));
            }
            self.state = RecordingState::Idle;
            self.session_info = None;
            self.navigation_history = Vec::new();
        }
        self.state = RecordingState::Starting;
        self.navigation_history = Vec::new();
        Ok(())
    }

    /// The browser is up: the recording of `profile_id` starting at `start_url`
    /// is in progress from `now_secs`.
    pub fn launch_succeeded(&mut self, profile_id: String, start_url: String, now_secs: i64)
        ensures
            final(self).state == (RecordingState::Recording { profile_id }),
            final(self).session_info == Some(
                RecordingSessionInfo { profile_id, start_url, event_count: 0, started_at: now_secs },
            ),
            final(self).navigation_history == old(self).navigation_history,
    {
        let info = RecordingSessionInfo {
            profile_id: profile_id.clone(),
            start_url,
            event_count: 0,
            started_at: now_secs,
        };
        self.session_info = Some(info);
        self.state = RecordingState::Recording { profile_id };
    }

    /// The browser did not start: the session fails with the launcher's message,
    /// and the error for the caller is returned.
    pub fn launch_failed(&mut self, details: &str) -> (r: String)
        ensures
            final(self).state matches RecordingState::Failed { error } && error@ == "Browser launch failed: "@ + details@,
            final(self).session_info == old(self).session_info,
            final(self).navigation_history == old(self).navigation_history,
            r@ == "Failed to launch browser: "@ + details@,
    {
        let mut e = owned("Browser launch failed: ");
        append_str(&mut e, details);
        self.state = RecordingState::Failed { error: e };
        let mut m = owned("Failed to launch browser: ");
        append_str(&mut m, details);
        m
    }

    /// Starts stopping the recording in progress and returns its profile id;
    /// refused when nothing is being recorded.
    pub fn begin_stop(&mut self) -> (r: Result<String, String>)
        ensures
            old(self).state matches RecordingState::Recording { profile_id } ==> (r matches Ok(p) && p == profile_id
                && final(self).state == RecordingState::Stopping && final(self).session_info == old(self).session_info
                && final(self).navigation_history == old(self).navigation_history),
            !(old(self).state is Recording) ==> (r matches Err(e) && e@ == "Not currently recording"@ && *final(self)
                == *old(self)),
    {
        let id = match &self.state {
            RecordingState::Recording { profile_id } => profile_id.clone(),
            _ => return Err(owned("Not currently recording")),
        };
        self.state = RecordingState::Stopping;
        Ok(id)
    }

    /// Adds the navigations the browser reported, skipping pages already recorded.
    pub fn absorb_browser_navigations(&mut self, navs: Vec<NavigationEvent>)
        ensures
            final(self).navigation_history@ == absorbed(old(self).navigation_history@, navs@),
            final(self).state == old(self).state,
            final(self).session_info == old(self).session_info,
            is_prefix_of(old(self).navigation_history@, final(self).navigation_history@),
            forall|k: int| 0 <= k < navs@.len() ==> url_recorded(final(self).navigation_history@, (#[trigger] navs@[k]).url@),
            forall|j: int| old(self).navigation_history@.len() <= j < final(self).navigation_history@.len() ==> (
                #[trigger] final(self).navigation_history@[j]).source == NavigationSource::Browser,
    {
        let ghost h0 = self.navigation_history@;
        let ghost all = navs@;
        assert(all.len() == navs.len());
        let mut pending = navs;
        let mut rev: Vec<NavigationEvent> = Vec::new();
        proof {
            assert(h0.subrange(0, h0.len() as int) =~= h0);
        }
        while pending.len() > 0
            invariant
                rev@.len() + pending@.len() == all.len(),
                all.len() <= usize::MAX,
                self.navigation_history@ == h0,
                self.state == old(self).state,
                self.session_info == old(self).session_info,
                forall|t: int| 0 <= t < pending@.len() ==> pending@[t] == all[t],
                forall|t: int| 0 <= t < rev@.len() ==> rev@[t] == all[all.len() - 1 - t],
            decreases pending.len(),
        {
            let x = pending.pop().unwrap();
            rev.push(x);
        }
        let mut done: usize = 0;
        while rev.len() > 0
            invariant
                done + rev@.len() == all.len(),
                all.len() <= usize::MAX,
                forall|t: int| 0 <= t < rev@.len() ==> rev@[t] == all[all.len() - 1 - t],
                is_prefix_of(h0, self.navigation_history@),
                self.navigation_history@ == absorbed(h0, all.take(done as int)),
                forall|k: int| 0 <= k < done ==> url_recorded(self.navigation_history@, (#[trigger] all[k]).url@),
                forall|j: int| h0.len() <= j < self.navigation_history@.len() ==> (
                    #[trigger] self.navigation_history@[j]).source == NavigationSource::Browser,
                self.state == old(self).state,
                self.session_info == old(self).session_info,
            decreases rev.len(),
        {
            let nav = rev.pop().unwrap();
            let ghost hb = self.navigation_history@;
            let mut seen = false;
            let mut j: usize = 0;
            while j < self.navigation_history.len()
                invariant
                    j <= self.navigation_history@.len(),
                    !seen ==> forall|t: int| 0 <= t < j ==> self.navigation_history@[t].url@ != nav.url@,
                    seen ==> exists|t: int| 0 <= t < self.navigation_history@.len() && self.navigation_history@[t].url@
                        == nav.url@,
                decreases self.navigation_history.len() - j,
            {
                if str_eq(self.navigation_history[j].url.as_str(), nav.url.as_str()) {
                    seen = true;
                }
                j = j + 1;
            }
            let ghost u = nav.url@;
            proof {
                assert(nav == all[done as int]);
                assert(all.take(done + 1).drop_last() =~= all.take(done as int));
                assert(all.take(done + 1).last() == all[done as int]);
                if seen {
                    let t = choose|t: int| 0 <= t < hb.len() && hb[t].url@ == u;
                    assert(url_recorded(hb, u));
                } else {
                    assert(!url_recorded(hb, u));
                }
            }
            if !seen {
                self.navigation_history.push(
                    NavigationEvent { url: nav.url, timestamp: nav.timestamp, nav_type: nav.nav_type, source: NavigationSource::Browser },
                );
                proof {
                    assert(self.navigation_history@[hb.len() as int].url@ == all[done as int].url@);
                    assert(self.navigation_history@.subrange(0, h0.len() as int) =~= hb.subrange(0, h0.len() as int));
                }
            }
            proof {
                assert forall|k: int| 0 <= k < done + 1 implies url_recorded(self.navigation_history@, (#[trigger] all[k]).url@) by {
                    if k < done {
                        assert(url_recorded(hb, all[k].url@));
                        let j = choose|j: int| 0 <= j < hb.len() && hb[j].url@ == all[k].url@;
                        assert(self.navigation_history@[j] == hb[j]);
                    } else if seen {
                        let t = choose|t: int| 0 <= t < self.navigation_history@.len() && self.navigation_history@[t].url@ == u;
                        assert(self.navigation_history@[t].url@ == all[k].url@);
                    } else {
                        assert(self.navigation_history@[hb.len() as int].url@ == all[k].url@);
                    }
                }
            }
            done = done + 1;
        }
        proof {
            assert(done == all.len());
            assert(all.take(done as int) =~= all);
            assert forall|k: int| 0 <= k < all.len() implies url_recorded(self.navigation_history@, (#[trigger] all[k]).url@) by {
                assert(0 <= k < done);
            }
        }
    }

    /// Ends the recording of `profile_id`: the session goes back to idle with no
    /// recording in progress. When the recording is kept, its steps are cleaned up
    /// and preceded by the browser-reported navigations, leaving out those that
    /// return under the recording's start URL.
    pub fn finish_stop(&mut self, profile_id: String, save: bool, steps: Vec<FlowStep>) -> (r: Option<(String, Vec<FlowStep>)>)
        ensures
            final(self).state == RecordingState::Idle,
            final(self).session_info is None,
            final(self).navigation_history == old(self).navigation_history,
            save ==> (r matches Some((p, s)) && p == profile_id && s@ == merged_steps(
                old(self).navigation_history@,
                steps::optimized(steps@),
                match old(self).session_info {
                    Some(i) => Some(i.start_url),
                    None => None,
                },
            )),
            !save ==> r is None,
    {
        let start: Option<String> = match &self.session_info {
            Some(i) => Some(i.start_url.clone()),
            None => None,
        };
        self.session_info = None;
        self.state = RecordingState::Idle;
        if save {
            let optimized = steps::optimize_steps(steps);
            let merged = merge_navigation_with_steps(&self.navigation_history, optimized, &start);
            Some((profile_id, merged))
        } else {
            None
        }
    }
}

/// The history after the browser's navigations are added in order: each one
/// whose URL is not yet recorded is appended as a browser navigation.
pub open spec fn absorbed(h: Seq<NavigationEvent>, navs: Seq<NavigationEvent>) -> Seq<NavigationEvent>
    decreases navs.len(),
{
    if navs.len() == 0 {
        h
    } else {
        let a = absorbed(h, navs.drop_last());
        let n = navs.last();
        if url_recorded(a, n.url@) {
            a
        } else {
            a.push(NavigationEvent { url: n.url, timestamp: n.timestamp, nav_type: n.nav_type, source: NavigationSource::Browser })
        }
    }
}

/// Some recorded page has this URL.
pub open spec fn url_recorded(h: Seq<NavigationEvent>, u: Seq<char>) -> bool {
    exists|j: int| 0 <= j < h.len() && h[j].url@ == u
}

/// The history is a prefix of the longer one.
pub open spec fn is_prefix_of(a: Seq<NavigationEvent>, b: Seq<NavigationEvent>) -> bool {
    a.len() <= b.len() && b.subrange(0, a.len() as int) == a
}

/// Stopping never adds a step back under the recording's start URL: the merge
/// keeps the recorded steps as they are at the end, and every step it puts in
/// front of them navigates to a page that is not under the start URL.
pub proof fn law_merge_skips_start_url(nav: Seq<NavigationEvent>, steps: Seq<FlowStep>, start: String)
    ensures
        ({
            let m = merged_steps(nav, steps, Some(start));
            let extra = m.len() - steps.len();
            &&& extra >= 0
            &&& m.subrange(extra, m.len() as int) == steps
            &&& forall|i: int|
                0 <= i < extra ==> (#[trigger] m[i] matches FlowStep::Navigate { url } && !is_prefix(start@, url@))
        }),
{
    let m = merged_steps(nav, steps, Some(start));
    let browser = nav.filter(|n: NavigationEvent| n.source == NavigationSource::Browser);
    let rp = |n: NavigationEvent| replayed_navigation(n, Some(start));
    if browser.len() <= 1 {
        assert(m.subrange(0, m.len() as int) =~= steps);
    } else {
        let kept = browser.skip(1).filter(rp);
        let front = navigate_steps(nav, Some(start));
        assert(front.len() == kept.len());
        assert(m.subrange(front.len() as int, m.len() as int) =~= steps);
        assert forall|i: int| 0 <= i < front.len() implies (#[trigger] m[i] matches FlowStep::Navigate { url }
            && !is_prefix(start@, url@)) by {
            browser.skip(1).lemma_filter_pred(rp, i);
            assert(m[i] == front[i]);
            assert(front[i] == FlowStep::Navigate { url: kept[i].url });
        }
    }
}

} // verus!
