use gust_core::cli::{merge_cli_auth_into_scenario, parse_headers, CliAuth};
use gust_core::scenario::{Scenario, ScenarioAuth, ScenarioMode, Step};
use gust_core::session::Target;
use gust_core::setup::{scenario_target, single_target};
use gust_core::strmap::StrMap;

fn one_step_scenario(auth: ScenarioAuth) -> Scenario {
    Scenario {
        name: "s".to_string(),
        mode: ScenarioMode::Sequence,
        steps: vec![Step {
            name: "a".to_string(),
            method: "GET".to_string(),
            url: "http://example/a".to_string(),
            weight: 1,
            think_ms: 0,
            body: None,
            headers: StrMap::new(),
        }],
        auth,
        cookies: StrMap::new(),
        cookie_jar: false,
    }
}

#[test]
fn parse_headers_splits_on_first_colon() {
    let h = parse_headers(&["X-A: 1".to_string(), "X-Url: http://x/y".to_string()]).unwrap();
    assert_eq!(h.get("X-A").unwrap(), "1");
    assert_eq!(h.get("X-Url").unwrap(), "http://x/y");
    assert!(parse_headers(&["nocolon".to_string()]).is_err());
    assert!(parse_headers(&[": empty".to_string()]).is_err());
}

#[test]
fn parse_headers_reports_the_offending_flag() {
    assert_eq!(
        parse_headers(&["nocolon".to_string()]).unwrap_err(),
        "header must be `Name: value`, got `nocolon`"
    );
    assert_eq!(
        parse_headers(&["  : v".to_string()]).unwrap_err(),
        "header name is empty in `  : v`"
    );
}

#[test]
fn parse_headers_later_flag_wins() {
    let h = parse_headers(&["X-A: 1".to_string(), "X-A:2 ".to_string()]).unwrap();
    assert_eq!(h.len(), 1);
    assert_eq!(h.get("X-A").unwrap(), "2");
}

#[test]
fn cli_auth_parses_basic_bearer_and_cookies() {
    let a = CliAuth::from_args(
        Some("tok".to_string()),
        None,
        vec!["sid=abc".to_string(), "theme=dark".to_string()],
        true,
    )
    .unwrap();
    assert_eq!(a.bearer.as_deref(), Some("tok"));
    assert!(a.basic.is_none());
    assert_eq!(a.cookies.get("sid").unwrap(), "abc");
    assert!(a.cookie_jar);

    let b = CliAuth::from_args(None, Some("demo:s3cret".to_string()), vec![], false).unwrap();
    assert_eq!(
        b.basic.as_ref().map(|(u, p)| (u.as_str(), p.as_str())),
        Some(("demo", "s3cret"))
    );

    assert!(CliAuth::from_args(Some("t".to_string()), Some("u:p".to_string()), vec![], false).is_err());
    assert!(CliAuth::from_args(None, Some("nopass".to_string()), vec![], false).is_err());
    assert!(CliAuth::from_args(None, None, vec!["bad".to_string()], false).is_err());
}

#[test]
fn cli_auth_error_messages() {
    let e = |r: Result<CliAuth, String>| r.err().unwrap();
    assert_eq!(
        e(CliAuth::from_args(Some("t".to_string()), Some("u:p".to_string()), vec![], false)),
        "use --bearer or --basic-auth, not both"
    );
    assert_eq!(
        e(CliAuth::from_args(None, Some(":p".to_string()), vec![], false)),
        "--basic-auth user must not be empty"
    );
    assert_eq!(
        e(CliAuth::from_args(Some(String::new()), None, vec![], false)),
        "--bearer must not be empty"
    );
    assert_eq!(
        e(CliAuth::from_args(None, None, vec!["bad".to_string()], false)),
        "--cookie must be `name=value`, got `bad`"
    );
    assert_eq!(
        e(CliAuth::from_args(None, None, vec!["=v".to_string()], false)),
        "--cookie name must not be empty"
    );
    assert_eq!(
        e(CliAuth::from_args(None, None, vec!["a=b;c".to_string()], false)),
        "--cookie value must not contain `;`"
    );
}

#[test]
fn basic_auth_splits_on_the_first_colon() {
    let b = CliAuth::from_args(None, Some("u:p:q".to_string()), vec![], false).unwrap();
    let (u, p) = b.basic.unwrap();
    assert_eq!(u, "u");
    assert_eq!(p, "p:q");
}

#[test]
fn merge_fills_empty_auth_and_keeps_file_cookies() {
    let mut s = one_step_scenario(ScenarioAuth::default());
    s.cookies.insert("sid".to_string(), "file".to_string());
    let cli = CliAuth::from_args(
        Some("tok".to_string()),
        None,
        vec!["sid=cli".to_string(), "theme=dark".to_string()],
        true,
    )
    .unwrap();
    merge_cli_auth_into_scenario(&mut s, &cli).unwrap();
    assert_eq!(s.auth.bearer.as_deref(), Some("tok"));
    assert_eq!(s.cookies.get("sid").unwrap(), "file");
    assert_eq!(s.cookies.get("theme").unwrap(), "dark");
    assert!(s.cookie_jar);
}

#[test]
fn merge_refuses_cli_credentials_over_file_auth() {
    let auth = ScenarioAuth {
        bearer: Some("file".to_string()),
        user: None,
        password: None,
    };
    let mut s = one_step_scenario(auth);
    let cli = CliAuth::from_args(None, Some("u:p".to_string()), vec![], false).unwrap();
    assert_eq!(
        merge_cli_auth_into_scenario(&mut s, &cli).unwrap_err(),
        "scenario already sets [auth]; omit --bearer / --basic-auth"
    );
    assert_eq!(s.auth.bearer.as_deref(), Some("file"));
    assert!(s.auth.user.is_none());
}

#[test]
fn merge_with_basic_sets_user_and_password() {
    let mut s = one_step_scenario(ScenarioAuth::default());
    let cli = CliAuth::from_args(None, Some("demo:pw".to_string()), vec![], false).unwrap();
    merge_cli_auth_into_scenario(&mut s, &cli).unwrap();
    assert_eq!(s.auth.user.as_deref(), Some("demo"));
    assert_eq!(s.auth.password.as_deref(), Some("pw"));
    assert!(!s.cookie_jar);
}

#[test]
fn single_target_validates_the_url_step() {
    let cli = CliAuth::from_args(None, Some("u:p".to_string()), vec!["sid=1".to_string()], false).unwrap();
    let (t, shared) = single_target(
        "http://localhost:8080/api".to_string(),
        "post".to_string(),
        &["Content-Type: application/json".to_string()],
        Some("{}".to_string()),
        &cli,
    )
    .unwrap();
    match t {
        Target::Single(st) => {
            assert_eq!(st.name, "url");
            assert_eq!(st.method, "POST");
            assert_eq!(st.url, "http://localhost:8080/api");
            assert_eq!(st.body.as_deref(), Some("{}"));
            assert_eq!(st.headers.get("Content-Type").unwrap(), "application/json");
        }
        Target::Scenario(_) => panic!("expected a single target"),
    }
    assert_eq!(shared.auth.user.as_deref(), Some("u"));
    assert_eq!(shared.auth.password.as_deref(), Some("p"));
    assert_eq!(shared.cookies.get("sid").unwrap(), "1");

    let none = CliAuth::from_args(None, None, vec![], false).unwrap();
    assert_eq!(
        single_target("http://x".to_string(), "BREW".to_string(), &[], None, &none).err().unwrap(),
        "step 0: unsupported method `BREW` (use GET/POST/PUT/PATCH/DELETE/HEAD)"
    );
    assert_eq!(
        single_target(" ".to_string(), "GET".to_string(), &[], None, &none).err().unwrap(),
        "step 0: url is required"
    );
    assert_eq!(
        single_target("http://x".to_string(), "GET".to_string(), &["bad".to_string()], None, &none)
            .err()
            .unwrap(),
        "header must be `Name: value`, got `bad`"
    );
}

#[test]
fn scenario_target_prefixes_validation_errors() {
    let none = CliAuth::from_args(None, None, vec![], true).unwrap();
    let mut empty = one_step_scenario(ScenarioAuth::default());
    empty.steps.clear();
    assert_eq!(
        scenario_target(empty, &none).err().unwrap(),
        "invalid scenario: scenario must have at least one step"
    );

    let (t, shared) = scenario_target(one_step_scenario(ScenarioAuth::default()), &none).unwrap();
    assert!(shared.cookie_jar);
    match t {
        Target::Scenario(sc) => {
            assert!(sc.cookie_jar);
            assert_eq!(sc.steps[0].name, "a");
        }
        Target::Single(_) => panic!("expected a scenario target"),
    }

    let file_auth = ScenarioAuth { bearer: Some("f".to_string()), user: None, password: None };
    let tok = CliAuth::from_args(Some("t".to_string()), None, vec![], false).unwrap();
    assert_eq!(
        scenario_target(one_step_scenario(file_auth), &tok).err().unwrap(),
        "scenario already sets [auth]; omit --bearer / --basic-auth"
    );
}
