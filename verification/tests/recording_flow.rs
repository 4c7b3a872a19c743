use orchestrator::recording::selectors::{
    build_smart_selector, is_dynamic_id, is_numeric, xpath_to_css, RawEvent, SelectorType, SmartSelector,
};
use orchestrator::recording::steps::{convert_event_to_step, optimize_steps, FlowStep};
use orchestrator::recording::{
    extract_domain, extract_etld_plus_one, merge_navigation_with_steps, should_track_navigation, NavigationEvent,
    NavigationSource, RecordingSession, RecordingState,
};

fn event(event_type: &str) -> RawEvent {
    RawEvent {
        event_type: event_type.to_string(),
        timestamp: None,
        tag_name: None,
        id: None,
        name: None,
        class_name: None,
        input_type: None,
        placeholder: None,
        data_testid: None,
        aria_label: None,
        role: None,
        href: None,
        action: None,
        text_content: None,
        xpath: None,
        css_path: None,
        is_password: None,
        value: None,
    }
}

fn sel(v: &str) -> SmartSelector {
    SmartSelector { value: v.to_string(), selector_type: SelectorType::Css, priority: 100, alternatives: vec![] }
}

#[test]
fn numeric_follows_unicode() {
    assert!(is_numeric('7'));
    assert!(is_numeric('½'));
    assert!(is_numeric('٣'));
    assert!(!is_numeric('x'));
}

#[test]
fn generated_ids_are_recognised() {
    assert!(is_dynamic_id("__next"));
    assert!(is_dynamic_id("ember123"));
    assert!(is_dynamic_id("react-select-2"));
    assert!(is_dynamic_id("a1234"));
    assert!(is_dynamic_id("ab"));
    assert!(!is_dynamic_id("login-form"));
}

#[test]
fn xpaths_become_css() {
    assert_eq!(xpath_to_css("//*[@id=\"main\"]"), "#main");
    assert_eq!(xpath_to_css("//*[@id='main']"), "#main");
    assert_eq!(xpath_to_css("/html/body/div[2]/span[1]"), "html > body > div:nth-of-type(2) > span");
    assert_eq!(xpath_to_css("//*/ul/li[x]"), "ul > li");
}

#[test]
fn best_selector_and_fallbacks() {
    let mut e = event("click");
    e.tag_name = Some("input".to_string());
    e.id = Some("email".to_string());
    e.name = Some("user".to_string());
    e.css_path = Some("form > input".to_string());
    let s = build_smart_selector(&e).unwrap();
    assert_eq!(s.value, "#email");
    assert_eq!(s.priority, 100);
    let alts: Vec<String> = s.alternatives.iter().map(|a| a.value.clone()).collect();
    assert_eq!(alts, vec!["input[name=\"user\"]".to_string(), "form > input".to_string()]);

    let mut x = event("click");
    x.xpath = Some("/html/body/a[3]".to_string());
    let s = build_smart_selector(&x).unwrap();
    assert_eq!(s.value, "html > body > a:nth-of-type(3)");
    assert_eq!(s.priority, 5);
    assert!(build_smart_selector(&event("click")).is_none());
}

#[test]
fn class_is_a_priority_fifty_candidate() {
    let mut b = event("click");
    b.tag_name = Some("button".to_string());
    b.class_name = Some("submit-btn".to_string());
    let s = build_smart_selector(&b).unwrap();
    assert_eq!(s.value, "button.submit-btn");
    assert_eq!(s.priority, 50);
    assert!(s.alternatives.is_empty());

    let mut a = event("click");
    a.tag_name = Some("a".to_string());
    a.role = Some("tab".to_string());
    a.class_name = Some("nav-link active".to_string());
    a.css_path = Some("ul > li > a".to_string());
    let s = build_smart_selector(&a).unwrap();
    assert_eq!(s.value, "a[role=\"tab\"]");
    let alts: Vec<(String, u8)> = s.alternatives.iter().map(|x| (x.value.clone(), x.priority)).collect();
    assert_eq!(alts, vec![("a.nav-link".to_string(), 50), ("ul > li > a".to_string(), 10)]);

    let mut lead = event("click");
    lead.class_name = Some(" spaced".to_string());
    assert!(build_smart_selector(&lead).is_none());
}

#[test]
fn events_become_steps() {
    let mut e = event("input");
    e.data_testid = Some("pw".to_string());
    e.value = Some("secret".to_string());
    e.is_password = Some(true);
    match convert_event_to_step(e) {
        Some(FlowStep::Type { selector, value, is_masked, clear_first }) => {
            assert_eq!(selector.value, "[data-testid=\"pw\"]");
            assert_eq!(value, "secret");
            assert!(is_masked);
            assert!(!clear_first);
        }
        other => panic!("unexpected {:?}", other),
    }
    let mut h = event("hover");
    h.id = Some("menu".to_string());
    assert!(convert_event_to_step(h).is_none());
}

#[test]
fn steps_are_cleaned_up() {
    let steps = vec![
        FlowStep::Click { selector: sel("#a") },
        FlowStep::Type { selector: sel("#a"), value: "x".to_string(), is_masked: false, clear_first: false },
        FlowStep::Type { selector: sel("#a"), value: "xy".to_string(), is_masked: false, clear_first: false },
        FlowStep::Click { selector: sel("#b") },
        FlowStep::Click { selector: sel("#b") },
        FlowStep::Submit { selector: sel("#f"), wait_for_navigation: true },
    ];
    let out = optimize_steps(steps);
    assert_eq!(out.len(), 3);
    match &out[0] {
        FlowStep::Type { value, clear_first, .. } => {
            assert_eq!(value, "xy");
            assert!(clear_first);
        }
        other => panic!("unexpected {:?}", other),
    }
    assert!(matches!(&out[1], FlowStep::Click { selector } if selector.value == "#b"));
    assert!(matches!(&out[2], FlowStep::Submit { .. }));
}

#[test]
fn domains_and_sites() {
    assert_eq!(extract_domain("https://WWW.Example.com:8443/a"), Some("www.example.com".to_string()));
    assert_eq!(extract_etld_plus_one("https://a.b.example.co.uk/x"), Some("example.co.uk".to_string()));
    assert_eq!(extract_etld_plus_one("http://shop.example.com"), Some("example.com".to_string()));
    assert_eq!(extract_etld_plus_one("http://localhost:3000"), Some("localhost".to_string()));
}

#[test]
fn only_page_navigations_are_tracked() {
    let start = Some("https://app.example.com/");
    assert!(should_track_navigation(start, "https://example.com/login", Some("text/html"), 200));
    assert!(!should_track_navigation(start, "https://example.com/app.js", Some("text/html"), 200));
    assert!(!should_track_navigation(start, "https://other.org/page", None, 200));
    assert!(!should_track_navigation(start, "https://example.com/page", None, 404));
    assert!(!should_track_navigation(None, "https://www.google.com/", Some("text/html"), 200));
    assert!(should_track_navigation(None, "https://x.io/dashboard?tab=1", None, 200));
    assert!(!should_track_navigation(None, "https://x.io/data.json", None, 200));
}

#[test]
fn recording_session_lifecycle() {
    let mut s = RecordingSession::new();
    assert_eq!(s.get_state(), RecordingState::Idle);
    assert_eq!(s.begin_stop(), Err("Not currently recording".to_string()));
    assert_eq!(s.begin_start(false), Ok(()));
    assert_eq!(s.get_state(), RecordingState::Starting);
    s.launch_succeeded("p1".to_string(), "https://example.com/".to_string(), 100);
    assert!(s.is_recording());
    assert_eq!(s.get_session_info().unwrap().started_at, 100);
    assert_eq!(s.begin_start(true), Err("Already recording".to_string()));

    assert!(s.add_navigation_event("https://example.com/home", Some("text/html"), 200, 1));
    assert!(!s.add_navigation_event("https://example.com/home", Some("text/html"), 200, 2));
    assert!(!s.add_navigation_event("https://example.com/logo.png", None, 200, 3));
    assert_eq!(s.navigation_history.len(), 1);

    s.absorb_browser_navigations(vec![
        NavigationEvent { url: "https://example.com/home".to_string(), timestamp: 4, nav_type: None, source: NavigationSource::Browser },
        NavigationEvent { url: "https://example.com/next".to_string(), timestamp: 5, nav_type: None, source: NavigationSource::Browser },
    ]);
    assert_eq!(s.navigation_history.len(), 2);

    assert_eq!(s.begin_stop(), Ok("p1".to_string()));
    assert_eq!(s.get_state(), RecordingState::Stopping);
    let (profile, steps) = s.finish_stop("p1".to_string(), true, vec![FlowStep::Click { selector: sel("#go") }]).unwrap();
    assert_eq!(profile, "p1");
    assert_eq!(steps.len(), 1);
    assert_eq!(s.get_state(), RecordingState::Idle);
    assert!(s.get_session_info().is_none());
}

#[test]
fn failed_launch_reports_details() {
    let mut s = RecordingSession::new();
    s.begin_start(false).unwrap();
    assert_eq!(s.launch_failed("no chrome"), "Failed to launch browser: no chrome");
    assert_eq!(s.get_state(), RecordingState::Failed { error: "Browser launch failed: no chrome".to_string() });
}

#[test]
fn browser_navigations_become_leading_steps() {
    let nav = vec![
        NavigationEvent { url: "https://e.com/a".to_string(), timestamp: 1, nav_type: None, source: NavigationSource::Browser },
        NavigationEvent { url: "https://e.com/p".to_string(), timestamp: 2, nav_type: None, source: NavigationSource::Proxy },
        NavigationEvent { url: "https://e.com/b".to_string(), timestamp: 3, nav_type: None, source: NavigationSource::Browser },
    ];
    let out = merge_navigation_with_steps(&nav, vec![FlowStep::Click { selector: sel("#x") }], &None);
    assert!(out.len() >= 2);
    assert!(matches!(out.last().unwrap(), FlowStep::Click { .. }));
    let single = vec![NavigationEvent { url: "https://e.com/a".to_string(), timestamp: 1, nav_type: None, source: NavigationSource::Browser }];
    let out = merge_navigation_with_steps(&single, vec![FlowStep::Click { selector: sel("#x") }], &None);
    assert_eq!(out.len(), 1);
}

#[test]
fn stop_skips_navigation_back_under_start_url() {
    let mut s = RecordingSession::new();
    s.begin_start(false).unwrap();
    s.launch_succeeded("p2".to_string(), "https://a.com".to_string(), 7);
    s.absorb_browser_navigations(vec![
        NavigationEvent { url: "https://a.com".to_string(), timestamp: 1, nav_type: None, source: NavigationSource::Browser },
        NavigationEvent { url: "https://x.com".to_string(), timestamp: 2, nav_type: None, source: NavigationSource::Browser },
        NavigationEvent { url: "https://a.com/b".to_string(), timestamp: 3, nav_type: None, source: NavigationSource::Browser },
    ]);
    assert_eq!(s.begin_stop(), Ok("p2".to_string()));
    let (profile, steps) = s.finish_stop("p2".to_string(), true, vec![FlowStep::Click { selector: sel("#go") }]).unwrap();
    assert_eq!(profile, "p2");
    assert_eq!(steps.len(), 2);
    assert!(matches!(&steps[0], FlowStep::Navigate { url } if url == "https://x.com"));
    assert!(matches!(&steps[1], FlowStep::Click { selector } if selector.value == "#go"));
}
