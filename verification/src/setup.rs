//! Turning command-line flags or a parsed scenario file into what a run
//! executes and the credentials it carries.
use vstd::prelude::*;

use crate::cli::{
    header_args_error_from, header_pairs, map_of_pairs, merge_cli_auth_into_scenario, merge_result,
    merged_auth, merged_auth_error, parse_headers, views, CliAuth,
};
use crate::scenario::{
    normalized, opt_view, scenario_error, step_error_of, Scenario, ScenarioAuth, ScenarioMode, Step,
};
use crate::session::{shares, SharedAuth, Target};
use crate::strmap::{has_key, value_of, StrMap};
use crate::text::{ascii_upper, owned, push_str};

verus! {

/// No credentials.
pub open spec fn no_auth() -> ScenarioAuth {
    ScenarioAuth { bearer: None, user: None, password: None }
}

/// Why a single-URL run cannot start: a malformed `--header`, an unusable
/// URL or method, or CLI credentials that do not validate.
pub open spec fn single_error(
    url: Seq<char>,
    method: Seq<char>,
    headers: Seq<Seq<char>>,
    cli: CliAuth,
) -> Option<Seq<char>> {
    if header_args_error_from(headers, 0) is Some {
        header_args_error_from(headers, 0)
    } else if step_error_of(0, url, method) is Some {
        step_error_of(0, url, method)
    } else {
        merged_auth_error(merged_auth(no_auth(), cli))
    }
}

/// The target of a single-URL run: one step named `url` with the flags'
/// method, URL, body and headers, validated like a scenario step, plus the
/// CLI credentials and cookies.
pub fn single_target(
    url: String,
    method: String,
    headers: &[String],
    body: Option<String>,
    cli: &CliAuth,
) -> (r: Result<(Target, SharedAuth), String>)
    ensures
        r is Ok <==> single_error(url@, method@, views(headers@), *cli) is None,
        r matches Err(e) ==> single_error(url@, method@, views(headers@), *cli) == Some(e@),
        r matches Ok((t, sh)) ==> {
            &&& t matches Target::Single(st) && {
                &&& st.name@ == "url"@
                &&& st.method@ == ascii_upper(method@)
                &&& st.url@ == url@
                &&& st.weight == 1
                &&& st.think_ms == 0
                &&& opt_view(st.body) == opt_view(body)
                &&& map_of_pairs(st.headers@, header_pairs(views(headers@)))
            }
            &&& (opt_view(sh.auth.bearer), opt_view(sh.auth.user), opt_view(sh.auth.password))
                == merged_auth(no_auth(), *cli)
            &&& forall|k: Seq<char>| has_key(sh.cookies@, k) == has_key(cli.cookies@, k)
            &&& forall|k: Seq<char>|
                has_key(cli.cookies@, k) ==> value_of(sh.cookies@, k) == value_of(cli.cookies@, k)
            &&& sh.cookie_jar == cli.cookie_jar
        },
{
    let header_map = parse_headers(headers)?;
    let step = Step {
        name: owned("url"),
        method,
        url,
        weight: 1,
        think_ms: 0,
        body,
        headers: header_map,
    };
    let mut steps: Vec<Step> = Vec::new();
    steps.push(step);
    let sc = Scenario {
        name: owned("single"),
        mode: ScenarioMode::Sequence,
        steps,
        auth: ScenarioAuth { bearer: None, user: None, password: None },
        cookies: StrMap::new(),
        cookie_jar: false,
    };
    proof {
        assert(crate::scenario::steps_error_from(sc.steps@, 0) == step_error_of(0, url@, method@)) by {
            assert(crate::scenario::steps_error_from(sc.steps@, 1) is None);
        }
    }
    let mut validated = sc.validate()?;
    let ghost before = validated;
    merge_cli_auth_into_scenario(&mut validated, cli)?;
    let shared = SharedAuth::from_scenario(&validated);
    let st = validated.steps.remove(0);
    proof {
        reveal_strlit("url");
        assert forall|k: Seq<char>| !has_key(before.cookies@, k) by {}
    }
    Ok((Target::Single(st), shared))
}

/// The target of a scenario-file run: the validated scenario with the CLI
/// credentials, cookies and jar flag merged in. A scenario that does not
/// validate is reported as `invalid scenario: <why>`.
pub fn scenario_target(raw: Scenario, cli: &CliAuth) -> (r: Result<(Target, SharedAuth), String>)
    ensures
        scenario_error(raw) matches Some(e) ==> r matches Err(m) && m@ == "invalid scenario: "@ + e,
        scenario_error(raw) is None ==> exists|v: Scenario, after: Scenario, mr: Result<(), String>|
            {
                &&& #[trigger] normalized(raw, v)
                &&& #[trigger] merge_result(v, *cli, after, mr)
                &&& match mr {
                    Err(e) => r matches Err(m) && m@ == e@,
                    Ok(_) => r matches Ok((t, sh)) && t == Target::Scenario(after) && shares(
                        after,
                        sh,
                    ),
                }
            },
{
    let ghost raw0 = raw;
    let mut scenario = match raw.validate() {
        Ok(s) => s,
        Err(e) => {
            let mut m = owned("invalid scenario: ");
            push_str(&mut m, e.as_str());
            return Err(m);
        },
    };
    let ghost v = scenario;
    let mr = merge_cli_auth_into_scenario(&mut scenario, cli);
    match mr {
        Err(e) => {
            proof {
                assert(normalized(raw0, v) && merge_result(v, *cli, scenario, mr));
            }
            Err(e)
        },
        Ok(()) => {
            let shared = SharedAuth::from_scenario(&scenario);
            let ghost after = scenario;
            let r = Ok((Target::Scenario(scenario), shared));
            proof {
                assert(normalized(raw0, v) && merge_result(v, *cli, after, mr));
            }
            r
        },
    }
}

} // verus!
