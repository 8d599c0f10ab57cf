use gust_core::scenario::{Scenario, ScenarioAuth, ScenarioMode, Step};
use gust_core::strmap::StrMap;

fn step(name: &str, weight: u32) -> Step {
    Step {
        name: name.to_string(),
        method: "GET".to_string(),
        url: format!("http://example/{name}"),
        weight,
        think_ms: 0,
        body: None,
        headers: StrMap::new(),
    }
}

fn scenario(name: &str, mode: ScenarioMode, steps: Vec<Step>, auth: ScenarioAuth) -> Scenario {
    Scenario {
        name: name.to_string(),
        mode,
        steps,
        auth,
        cookies: StrMap::new(),
        cookie_jar: false,
    }
}

#[test]
fn validate_rejects_empty() {
    let s = scenario("x", ScenarioMode::Sequence, vec![], ScenarioAuth::default());
    assert!(s.validate().is_err());
}

#[test]
fn weighted_pick_respects_weights() {
    let s = scenario(
        "mix",
        ScenarioMode::Weighted,
        vec![step("a", 1), step("b", 3)],
        ScenarioAuth::default(),
    )
    .validate()
    .unwrap();

    let mut counts = [0u32; 2];
    for n in 0..400 {
        let picked = s.pick_weighted(n);
        if picked.name == "a" {
            counts[0] += 1;
        } else {
            counts[1] += 1;
        }
    }
    assert!(counts[0] > 80 && counts[0] < 120, "a={}", counts[0]);
    assert!(counts[1] > 280 && counts[1] < 320, "b={}", counts[1]);
}

#[test]
fn sequence_mode_parses_think() {
    let s = scenario(
        "",
        ScenarioMode::Sequence,
        vec![
            Step {
                name: String::new(),
                method: "get".to_string(),
                url: "http://localhost/".to_string(),
                weight: 0,
                think_ms: 25,
                body: None,
                headers: StrMap::new(),
            },
            step("two", 1),
        ],
        ScenarioAuth::default(),
    )
    .validate()
    .unwrap();
    assert_eq!(s.name, "scenario");
    assert_eq!(s.steps[0].method, "GET");
    assert_eq!(s.steps[0].name, "step-0");
    assert_eq!(s.steps[0].weight, 1);
    assert_eq!(s.steps[0].think_ms, 25);
}

#[test]
fn auth_rejects_bearer_and_basic_together() {
    let s = scenario(
        "x",
        ScenarioMode::Sequence,
        vec![step("a", 1)],
        ScenarioAuth {
            bearer: Some("tok".to_string()),
            user: Some("u".to_string()),
            password: Some("p".to_string()),
        },
    );
    assert!(s.validate().unwrap_err().contains("bearer"));
}

#[test]
fn auth_basic_requires_both_fields() {
    let s = scenario(
        "x",
        ScenarioMode::Sequence,
        vec![step("a", 1)],
        ScenarioAuth {
            bearer: None,
            user: Some("u".to_string()),
            password: None,
        },
    );
    assert!(s.validate().unwrap_err().contains("password"));
}

#[test]
fn weighted_pick_follows_the_weight_schedule_exactly() {
    let s = scenario(
        "mix",
        ScenarioMode::Weighted,
        vec![step("a", 1), step("b", 3)],
        ScenarioAuth::default(),
    );
    assert_eq!(s.total_weight(), 4);
    let names: Vec<&str> = (0..8).map(|n| s.pick_weighted(n).name.as_str()).collect();
    assert_eq!(names, vec!["a", "b", "b", "b", "a", "b", "b", "b"]);
    assert_eq!(s.pick_weighted_index(4_000_001), 1);
}

#[test]
fn weighted_pick_schedule_repeats_every_total_weight() {
    let s = scenario(
        "mix",
        ScenarioMode::Weighted,
        vec![step("a", 2), step("b", 0), step("c", 5)],
        ScenarioAuth::default(),
    );
    let total = s.total_weight() as u64;
    assert_eq!(total, 8);
    for n in 0..40u64 {
        assert_eq!(s.pick_weighted_index(n), s.pick_weighted_index(n + total));
    }
    let mut share = [0u32; 3];
    for n in 5..(5 + total) {
        share[s.pick_weighted_index(n)] += 1;
    }
    assert_eq!(share, [2, 1, 5]);
}

#[test]
fn validate_is_idempotent_on_a_valid_scenario() {
    let s = scenario(
        "",
        ScenarioMode::Weighted,
        vec![step("", 0), step("b", 2)],
        ScenarioAuth::default(),
    )
    .validate()
    .unwrap();
    assert_eq!(s.steps[0].name, "step-0");
    let again = s.clone().validate().unwrap();
    assert_eq!(again.name, s.name);
    assert_eq!(again.steps.len(), s.steps.len());
    for (a, b) in again.steps.iter().zip(s.steps.iter()) {
        assert_eq!(a.name, b.name);
        assert_eq!(a.method, b.method);
        assert_eq!(a.weight, b.weight);
    }
}

#[test]
fn validate_reports_unsupported_method_and_empty_url() {
    let mut bad = step("a", 1);
    bad.method = "FETCH".to_string();
    let err = scenario("x", ScenarioMode::Sequence, vec![bad], ScenarioAuth::default())
        .validate()
        .unwrap_err();
    assert!(err.contains("FETCH"), "{err}");

    let mut no_url = step("a", 1);
    no_url.url = "   ".to_string();
    assert!(scenario("x", ScenarioMode::Sequence, vec![no_url], ScenarioAuth::default())
        .validate()
        .is_err());
}

#[test]
fn validate_rejects_a_blank_cookie_name() {
    let mut s = scenario("x", ScenarioMode::Sequence, vec![step("a", 1)], ScenarioAuth::default());
    s.cookies.insert(String::new(), "v".to_string());
    assert_eq!(s.validate().unwrap_err(), "cookies: name must not be empty");

    let mut t = scenario("x", ScenarioMode::Sequence, vec![step("a", 1)], ScenarioAuth::default());
    t.cookies.insert("sid".to_string(), "a; Path=/".to_string());
    assert_eq!(
        t.validate().unwrap_err(),
        "cookies.sid: value must not contain `;` (put attributes in the jar via Set-Cookie)"
    );
}

#[test]
fn label_names_steps_and_mode() {
    let s = scenario(
        "shop",
        ScenarioMode::Weighted,
        vec![step("a", 1), step("b", 1)],
        ScenarioAuth::default(),
    );
    assert_eq!(s.label(), "shop (2 steps, Weighted)");
}

#[test]
fn auth_is_empty_and_valid_when_nothing_is_set() {
    let a = ScenarioAuth::default();
    assert!(a.is_empty());
    assert!(a.validate().is_ok());
    let b = ScenarioAuth {
        bearer: None,
        user: None,
        password: Some("p".to_string()),
    };
    assert!(!b.is_empty());
    assert!(b.validate().is_err());
}

#[test]
fn cookies_and_auth_survive_validation() {
    let mut s = Scenario {
        name: "secure".to_string(),
        mode: ScenarioMode::Sequence,
        steps: vec![Step {
            name: "ping".to_string(),
            method: "GET".to_string(),
            url: "http://127.0.0.1:8080/api/me".to_string(),
            weight: 1,
            think_ms: 0,
            body: None,
            headers: StrMap::new(),
        }],
        auth: ScenarioAuth { bearer: Some("sekrit".to_string()), user: None, password: None },
        cookies: StrMap::new(),
        cookie_jar: true,
    };
    s.cookies.insert("session".to_string(), "abc".to_string());
    let s = s.validate().unwrap();
    assert!(s.cookie_jar);
    assert_eq!(s.auth.bearer.as_deref(), Some("sekrit"));
    assert_eq!(s.cookies.get("session").map(String::as_str), Some("abc"));
}
