use gust_core::scenario::{Scenario, ScenarioAuth, ScenarioMode, Step};
use gust_core::session::{
    http_method, request_auth, request_cookie, step_sets_header, ArrivalStep, AuthPlan, FailureNote, HttpMethod, Session,
    SharedAuth, Target,
};
use gust_core::strmap::StrMap;

fn step(name: &str, weight: u32, think_ms: u64) -> Step {
    Step {
        name: name.to_string(),
        method: "GET".to_string(),
        url: format!("http://example/{name}"),
        weight,
        think_ms,
        body: None,
        headers: StrMap::new(),
    }
}

fn scenario(mode: ScenarioMode, steps: Vec<Step>, auth: ScenarioAuth) -> Scenario {
    Scenario { name: "s".to_string(), mode, steps, auth, cookies: StrMap::new(), cookie_jar: false }
}

#[test]
fn single_url_arrival_is_one_untagged_request() {
    let t = Target::Single(step("a", 1, 0));
    assert_eq!(t.arrival_plan(7), vec![ArrivalStep { step: 0, tagged: false, think_after_ms: 0 }]);
    assert_eq!(t.label(), "GET http://example/a");
}

#[test]
fn sequence_arrival_runs_every_step_with_think_between() {
    let sc = scenario(
        ScenarioMode::Sequence,
        vec![step("a", 1, 25), step("b", 1, 0), step("c", 1, 40)],
        ScenarioAuth::default(),
    );
    let t = Target::Scenario(sc);
    assert_eq!(
        t.arrival_plan(0),
        vec![
            ArrivalStep { step: 0, tagged: true, think_after_ms: 25 },
            ArrivalStep { step: 1, tagged: true, think_after_ms: 0 },
            ArrivalStep { step: 2, tagged: true, think_after_ms: 0 },
        ]
    );
    assert_eq!(t.label(), "s (3 steps, Sequence)");
}

#[test]
fn weighted_arrival_runs_the_weighted_pick() {
    let sc = scenario(ScenarioMode::Weighted, vec![step("a", 1, 0), step("b", 3, 0)], ScenarioAuth::default());
    let t = Target::Scenario(sc);
    let picks: Vec<usize> = (0..4).map(|n| t.arrival_plan(n)[0].step).collect();
    assert_eq!(picks, vec![0, 1, 1, 1]);
    assert!(t.arrival_plan(2)[0].tagged);
}

#[test]
fn session_builds_cookie_header_unless_jar() {
    let mut sc = scenario(
        ScenarioMode::Sequence,
        vec![step("a", 1, 0)],
        ScenarioAuth { bearer: None, user: Some("u".to_string()), password: Some("p".to_string()) },
    );
    sc.cookies.insert("sid".to_string(), "abc".to_string());
    sc.cookies.insert("a".to_string(), "1".to_string());
    let shared = SharedAuth::from_scenario(&sc);
    let s = Session::from_shared(&shared);
    assert_eq!(s.cookie_header.as_deref(), Some("a=1; sid=abc"));
    assert_eq!(s.basic, Some(("u".to_string(), "p".to_string())));
    assert!(s.bearer.is_none());

    sc.cookie_jar = true;
    let s = Session::from_shared(&SharedAuth::from_scenario(&sc));
    assert!(s.cookie_header.is_none());
    assert_eq!(SharedAuth::from_scenario(&sc).seed_url(&Target::Scenario(sc.clone())), "http://example/a");
}

#[test]
fn step_headers_win_over_session_credentials() {
    let session = Session {
        bearer: Some("tok".to_string()),
        basic: None,
        cookie_header: Some("sid=abc".to_string()),
    };
    let plain = step("a", 1, 0);
    assert_eq!(request_auth(&plain, &session), AuthPlan::Bearer("tok".to_string()));
    assert_eq!(request_cookie(&plain, &session).as_deref(), Some("sid=abc"));

    let mut own = step("b", 1, 0);
    own.headers.insert("AUTHORIZATION".to_string(), "Basic x".to_string());
    own.headers.insert("cookie".to_string(), "mine=1".to_string());
    assert!(step_sets_header(&own.headers, "Authorization"));
    assert_eq!(request_auth(&own, &session), AuthPlan::Nothing);
    assert_eq!(request_cookie(&own, &session), None);

    let basic = Session { bearer: None, basic: Some(("u".to_string(), "p".to_string())), cookie_header: None };
    assert_eq!(request_auth(&plain, &basic), AuthPlan::Basic("u".to_string(), "p".to_string()));
    assert_eq!(request_auth(&plain, &Session::default()), AuthPlan::Nothing);
}

#[test]
fn methods_map_to_http_methods() {
    assert_eq!(http_method("POST"), HttpMethod::Post);
    assert_eq!(http_method("DELETE"), HttpMethod::Delete);
    assert_eq!(http_method("HEAD"), HttpMethod::Head);
    assert_eq!(http_method("GET"), HttpMethod::Get);
    assert_eq!(http_method("BREW"), HttpMethod::Get);
}

#[test]
fn first_failure_wins() {
    let mut f = FailureNote::new();
    assert_eq!(f.first_failure(), None);
    f.note_failure(|| "HTTP 503".to_string());
    let mut later_ran = false;
    f.note_failure(|| {
        later_ran = true;
        "could not connect: refused".to_string()
    });
    assert_eq!(f.first_failure(), Some("HTTP 503"));
    assert!(!later_ran);
}
