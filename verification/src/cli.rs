//! Command-line auth, cookie and header flags, and how they combine with a
//! scenario into the credentials every request carries.
use vstd::prelude::*;

use crate::scenario::{copy_opt, opt_view, Scenario, ScenarioAuth, Step};
use crate::strmap::{has_key, value_of, StrMap};
use crate::text::{
    chars_of, contains_char, owned, push_str, split_once, split_once_char, string_of, trim, trimmed,
};

verus! {

/// The character views of a list of strings.
pub open spec fn views(v: Seq<String>) -> Seq<Seq<char>> {
    v.map_values(|s: String| s@)
}

/// Why a `--basic-auth` value is unusable, if it is.
pub open spec fn basic_error(b: Option<Seq<char>>) -> Option<Seq<char>> {
    match b {
        None => None,
        Some(raw) => match split_once(raw, ':') {
            None => Some("--basic-auth must be `user:password`"@),
            Some((u, _)) => if u.len() == 0 {
                Some("--basic-auth user must not be empty"@)
            } else {
                None
            },
        },
    }
}

/// Why one `--cookie` value is unusable, if it is.
pub open spec fn cookie_arg_error(c: Seq<char>) -> Option<Seq<char>> {
    match split_once(c, '=') {
        None => Some("--cookie must be `name=value`, got `"@ + c + "`"@),
        Some((name, value)) => if name.len() == 0 {
            Some("--cookie name must not be empty"@)
        } else if value.contains(';') {
            Some("--cookie value must not contain `;`"@)
        } else {
            None
        },
    }
}

/// The first unusable `--cookie` value from index `i` on.
pub open spec fn cookie_args_error_from(cs: Seq<Seq<char>>, i: int) -> Option<Seq<char>>
    decreases cs.len() - i,
{
    if i < 0 || i >= cs.len() {
        None
    } else if cookie_arg_error(cs[i]) is Some {
        cookie_arg_error(cs[i])
    } else {
        cookie_args_error_from(cs, i + 1)
    }
}

/// Why the auth flags are unusable, checking in the order the CLI does.
pub open spec fn cli_auth_error(
    bearer: Option<Seq<char>>,
    basic: Option<Seq<char>>,
    cookies: Seq<Seq<char>>,
) -> Option<Seq<char>> {
    if bearer is Some && basic is Some {
        Some("use --bearer or --basic-auth, not both"@)
    } else if basic_error(basic) is Some {
        basic_error(basic)
    } else if bearer matches Some(t) && t.len() == 0 {
        Some("--bearer must not be empty"@)
    } else {
        cookie_args_error_from(cookies, 0)
    }
}

/// The `(name, value)` split of each `--cookie` value, in order.
pub open spec fn cookie_pairs(cs: Seq<Seq<char>>) -> Seq<(Seq<char>, Seq<char>)> {
    cs.map_values(|c: Seq<char>| split_once(c, '=')->0)
}

/// The character view of an optional pair of strings.
pub open spec fn pair_opt_view(o: Option<(String, String)>) -> Option<(Seq<char>, Seq<char>)> {
    match o {
        Some((a, b)) => Some((a@, b@)),
        None => None,
    }
}

/// The map `m` holds exactly the keys of the list `ps`, each with the value of
/// its last occurrence: what inserting `ps` in order into an empty map gives.
pub open spec fn map_of_pairs(m: Seq<(Seq<char>, Seq<char>)>, ps: Seq<(Seq<char>, Seq<char>)>) -> bool {
    &&& forall|k: Seq<char>| has_key(m, k) == has_key(ps, k)
    &&& forall|k: Seq<char>| has_key(ps, k) ==> value_of(m, k) == value_of(ps, k)
}

/// Appending a pair adds its key and makes its value the latest for that key.
pub proof fn lemma_pairs_push(ps: Seq<(Seq<char>, Seq<char>)>, x: (Seq<char>, Seq<char>), k: Seq<char>)
    ensures
        has_key(ps.push(x), k) == (has_key(ps, k) || k == x.0),
        k == x.0 ==> value_of(ps.push(x), k) == x.1,
        k != x.0 ==> value_of(ps.push(x), k) == value_of(ps, k),
{
    let q = ps.push(x);
    assert(q.drop_last() =~= ps);
    if has_key(ps, k) {
        let i = choose|i: int| 0 <= i < ps.len() && #[trigger] ps[i].0 == k;
        assert(q[i].0 == k);
    }
    if k == x.0 {
        assert(q[ps.len() as int].0 == k);
    }
    if has_key(q, k) && k != x.0 {
        let i = choose|i: int| 0 <= i < q.len() && #[trigger] q[i].0 == k;
        assert(ps[i].0 == k);
    }
}

/// Parsed auth / cookie flags. Scenario-file values win when already set.
#[derive(Debug, Clone)]
pub struct CliAuth {
    pub bearer: Option<String>,
    pub basic: Option<(String, String)>,
    pub cookies: StrMap,
    pub cookie_jar: bool,
}

impl CliAuth {
    /// Parse `--bearer`, `--basic-auth user:password`, `--cookie name=value`
    /// (repeatable) and `--cookie-jar`.
    pub fn from_args(
        bearer: Option<String>,
        basic_auth: Option<String>,
        cookies: Vec<String>,
        cookie_jar: bool,
    ) -> (r: Result<Self, String>)
        ensures
            r is Ok <==> cli_auth_error(opt_view(bearer), opt_view(basic_auth), views(cookies@))
                is None,
            r matches Err(e) ==> cli_auth_error(
                opt_view(bearer),
                opt_view(basic_auth),
                views(cookies@),
            ) == Some(e@),
            r matches Ok(a) ==> {
                &&& opt_view(a.bearer) == opt_view(bearer)
                &&& pair_opt_view(a.basic) == match opt_view(basic_auth) {
                    Some(raw) => split_once(raw, ':'),
                    None => None,
                }
                &&& map_of_pairs(a.cookies@, cookie_pairs(views(cookies@)))
                &&& a.cookie_jar == cookie_jar
            },
    {
        if bearer.is_some() && basic_auth.is_some() {
            return Err(owned("use --bearer or --basic-auth, not both"));
        }
        let basic = match &basic_auth {
            None => None,
            Some(raw) => {
                let rc = chars_of(raw.as_str());
                match split_once_char(rc.as_slice(), ':') {
                    None => {
                        return Err(owned("--basic-auth must be `user:password`"));
                    },
                    Some((user, pass)) => {
                        if user.len() == 0 {
                            return Err(owned("--basic-auth user must not be empty"));
                        }
                        Some((string_of(user.as_slice()), string_of(pass.as_slice())))
                    },
                }
            },
        };
        if let Some(tok) = &bearer {
            if tok.as_str().is_empty() {
                return Err(owned("--bearer must not be empty"));
            }
        }
        let ghost cs = views(cookies@);
        let ghost ps = cookie_pairs(cs);
        let mut jar_cookies = StrMap::new();
        let mut i: usize = 0;
        while i < cookies.len()
            invariant
                i <= cookies@.len(),
                cs == views(cookies@),
                ps == cookie_pairs(cs),
                cli_auth_error(opt_view(bearer), opt_view(basic_auth), cs)
                    == cookie_args_error_from(cs, 0),
                cookie_args_error_from(cs, 0) == cookie_args_error_from(cs, i as int),
                map_of_pairs(jar_cookies@, ps.take(i as int)),
            decreases cookies@.len() - i,
        {
            let c = &cookies[i];
            assert(cs[i as int] == c@);
            let cc = chars_of(c.as_str());
            match split_once_char(cc.as_slice(), '=') {
                None => {
                    let mut e = owned("--cookie must be `name=value`, got `");
                    push_str(&mut e, c.as_str());
                    push_str(&mut e, "`");
                    return Err(e);
                },
                Some((name, value)) => {
                    if name.len() == 0 {
                        return Err(owned("--cookie name must not be empty"));
                    }
                    if contains_char(value.as_slice(), ';') {
                        return Err(owned("--cookie value must not contain `;`"));
                    }
                    let ghost before = jar_cookies@;
                    let ghost x = (name@, value@);
                    jar_cookies.insert(string_of(name.as_slice()), string_of(value.as_slice()));
                    proof {
                        assert(ps[i as int] == x);
                        assert(ps.take(i + 1) =~= ps.take(i as int).push(x));
                        assert forall|k: Seq<char>| has_key(jar_cookies@, k) == has_key(
                            ps.take(i + 1),
                            k,
                        ) by {
                            lemma_pairs_push(ps.take(i as int), x, k);
                        }
                        assert forall|k: Seq<char>| has_key(ps.take(i + 1), k) implies value_of(
                            jar_cookies@,
                            k,
                        ) == value_of(ps.take(i + 1), k) by {
                            lemma_pairs_push(ps.take(i as int), x, k);
                        }
                    }
                },
            }
            i = i + 1;
        }
        assert(ps.take(cookies@.len() as int) =~= ps);
        Ok(CliAuth { bearer, basic, cookies: jar_cookies, cookie_jar })
    }
}

/// Why one `--header` value is unusable, if it is.
pub open spec fn header_arg_error(h: Seq<char>) -> Option<Seq<char>> {
    match split_once(h, ':') {
        None => Some("header must be `Name: value`, got `"@ + h + "`"@),
        Some((k, _)) => if trimmed(k).len() == 0 {
            Some("header name is empty in `"@ + h + "`"@)
        } else {
            None
        },
    }
}

/// The first unusable `--header` value from index `i` on.
pub open spec fn header_args_error_from(hs: Seq<Seq<char>>, i: int) -> Option<Seq<char>>
    decreases hs.len() - i,
{
    if i < 0 || i >= hs.len() {
        None
    } else if header_arg_error(hs[i]) is Some {
        header_arg_error(hs[i])
    } else {
        header_args_error_from(hs, i + 1)
    }
}

/// The trimmed `(name, value)` split of each `--header` value, in order.
pub open spec fn header_pairs(hs: Seq<Seq<char>>) -> Seq<(Seq<char>, Seq<char>)> {
    hs.map_values(|h: Seq<char>| header_pair(h))
}

/// The trimmed name and value of one `Name: value` flag.
pub open spec fn header_pair(h: Seq<char>) -> (Seq<char>, Seq<char>) {
    let (k, v) = split_once(h, ':')->0;
    (trimmed(k), trimmed(v))
}

/// Parse `Name: value` header flags; the name is split off at the first colon
/// and both sides are trimmed.
pub fn parse_headers(raw: &[String]) -> (r: Result<StrMap, String>)
    ensures
        r is Ok <==> header_args_error_from(views(raw@), 0) is None,
        r matches Err(e) ==> header_args_error_from(views(raw@), 0) == Some(e@),
        r matches Ok(m) ==> map_of_pairs(m@, header_pairs(views(raw@))),
{
    let ghost hs = views(raw@);
    let ghost ps = header_pairs(hs);
    let mut out = StrMap::new();
    let mut i: usize = 0;
    while i < raw.len()
        invariant
            i <= raw@.len(),
            hs == views(raw@),
            ps == header_pairs(hs),
            header_args_error_from(hs, 0) == header_args_error_from(hs, i as int),
            map_of_pairs(out@, ps.take(i as int)),
        decreases raw@.len() - i,
    {
        let h = &raw[i];
        assert(hs[i as int] == h@);
        let hc = chars_of(h.as_str());
        match split_once_char(hc.as_slice(), ':') {
            None => {
                let mut e = owned("header must be `Name: value`, got `");
                push_str(&mut e, h.as_str());
                push_str(&mut e, "`");
                return Err(e);
            },
            Some((k, v)) => {
                let k = trim(k.as_slice());
                let v = trim(v.as_slice());
                if k.len() == 0 {
                    let mut e = owned("header name is empty in `");
                    push_str(&mut e, h.as_str());
                    push_str(&mut e, "`");
                    return Err(e);
                }
                let ghost x = (k@, v@);
                out.insert(string_of(k.as_slice()), string_of(v.as_slice()));
                proof {
                    assert(ps[i as int] == x);
                    assert(ps.take(i + 1) =~= ps.take(i as int).push(x));
                    assert forall|kk: Seq<char>| has_key(out@, kk) == has_key(ps.take(i + 1), kk) by {
                        lemma_pairs_push(ps.take(i as int), x, kk);
                    }
                    assert forall|kk: Seq<char>| has_key(ps.take(i + 1), kk) implies value_of(
                        out@,
                        kk,
                    ) == value_of(ps.take(i + 1), kk) by {
                        lemma_pairs_push(ps.take(i as int), x, kk);
                    }
                }
            },
        }
        i = i + 1;
    }
    assert(ps.take(raw@.len() as int) =~= ps);
    Ok(out)
}

/// The credentials a scenario ends up with once CLI flags fill an empty `[auth]`.
pub open spec fn merged_auth(a: ScenarioAuth, cli: CliAuth) -> (
    Option<Seq<char>>,
    Option<Seq<char>>,
    Option<Seq<char>>,
) {
    if a.bearer is None && a.user is None && a.password is None {
        match (cli.bearer, cli.basic) {
            (Some(t), _) => (Some(t@), None, None),
            (None, Some((u, p))) => (None, Some(u@), Some(p@)),
            (None, None) => (None, None, None),
        }
    } else {
        (opt_view(a.bearer), opt_view(a.user), opt_view(a.password))
    }
}

/// `auth_error` phrased over the text of the credentials.
pub open spec fn merged_auth_error(
    m: (Option<Seq<char>>, Option<Seq<char>>, Option<Seq<char>>),
) -> Option<Seq<char>> {
    let (bearer, user, password) = m;
    if bearer matches Some(t) && t.len() == 0 {
        Some("auth.bearer must not be empty"@)
    } else if bearer is Some && (user is Some || password is Some) {
        Some("auth: use bearer *or* user/password, not both"@)
    } else {
        match (user, password) {
            (None, None) => None,
            (Some(u), Some(_)) => if u.len() == 0 {
                Some("auth.user must not be empty"@)
            } else {
                None
            },
            (Some(_), None) => Some("auth.password is required when auth.user is set"@),
            (None, Some(_)) => Some("auth.user is required when auth.password is set"@),
        }
    }
}

/// `auth_error` only reads the text of the credentials.
proof fn lemma_auth_error_text(a: ScenarioAuth)
    ensures
        crate::scenario::auth_error(a) == merged_auth_error(
            (opt_view(a.bearer), opt_view(a.user), opt_view(a.password)),
        ),
{
}

/// `after` and `r` are what merging the CLI flags `cli` into the scenario
/// `before` gives: CLI credentials fill an empty `[auth]` and are refused
/// over a set one; the merged credentials must validate; CLI cookies are
/// added unless the scenario names the same cookie; `--cookie-jar` switches
/// the jar on. Name, mode and steps never change.
pub open spec fn merge_result(before: Scenario, cli: CliAuth, after: Scenario, r: Result<(), String>) -> bool {
    let a = before.auth;
    let empty = a.bearer is None && a.user is None && a.password is None;
    let refused = !empty && (cli.bearer is Some || cli.basic is Some);
    let m = merged_auth(a, cli);
    &&& refused ==> (r matches Err(e) && e@
        == "scenario already sets [auth]; omit --bearer / --basic-auth"@ && after == before)
    &&& !refused ==> {
        &&& (opt_view(after.auth.bearer), opt_view(after.auth.user), opt_view(after.auth.password)) == m
        &&& (r is Ok <==> merged_auth_error(m) is None)
        &&& (r matches Err(e) ==> merged_auth_error(m) == Some(e@) && after.cookies == before.cookies
            && after.cookie_jar == before.cookie_jar)
        &&& (r is Ok ==> {
            &&& forall|k: Seq<char>| has_key(after.cookies@, k) == (has_key(before.cookies@, k) || has_key(cli.cookies@, k))
            &&& forall|k: Seq<char>| has_key(before.cookies@, k) ==> value_of(after.cookies@, k) == value_of(before.cookies@, k)
            &&& forall|k: Seq<char>| !has_key(before.cookies@, k) && has_key(cli.cookies@, k) ==> value_of(after.cookies@, k) == value_of(cli.cookies@, k)
            &&& after.cookie_jar == (before.cookie_jar || cli.cookie_jar)
        })
    }
    &&& after.name == before.name
    &&& after.mode == before.mode
    &&& after.steps == before.steps
}

/// Merge CLI auth / cookie flags into a scenario: CLI credentials fill an
/// empty `[auth]` (and are refused when the file already sets one), CLI
/// cookies are added unless the file names the same cookie, and
/// `--cookie-jar` switches the jar on.
pub fn merge_cli_auth_into_scenario(scenario: &mut Scenario, cli: &CliAuth) -> (r: Result<
    (),
    String,
>)
    ensures
        merge_result(*old(scenario), *cli, *final(scenario), r),
{
    if scenario.auth.is_empty() {
        if let Some(tok) = &cli.bearer {
            scenario.auth.bearer = Some(tok.clone());
        } else if let Some((u, p)) = &cli.basic {
            scenario.auth.user = Some(u.clone());
            scenario.auth.password = Some(p.clone());
        }
    } else if cli.bearer.is_some() || cli.basic.is_some() {
        return Err(owned("scenario already sets [auth]; omit --bearer / --basic-auth"));
    }
    proof {
        lemma_auth_error_text(scenario.auth);
    }
    scenario.auth.validate()?;
    let ghost start = scenario.cookies@;
    let ghost merged = scenario.auth;
    let mut i: usize = 0;
    while i < cli.cookies.len()
        invariant
            i <= cli.cookies@.len(),
            forall|k: Seq<char>| #[trigger] has_key(scenario.cookies@, k) == (has_key(start, k) || has_key(cli.cookies@.take(i as int), k)),
            forall|k: Seq<char>| has_key(start, k) ==> #[trigger] value_of(scenario.cookies@, k) == value_of(start, k),
            forall|k: Seq<char>| !has_key(start, k) && has_key(cli.cookies@.take(i as int), k) ==> #[trigger] value_of(scenario.cookies@, k) == value_of(cli.cookies@, k),
            scenario.name == old(scenario).name,
            scenario.mode == old(scenario).mode,
            scenario.steps == old(scenario).steps,
            scenario.cookie_jar == old(scenario).cookie_jar,
            scenario.auth == merged,
        decreases cli.cookies@.len() - i,
    {
        let (k, v) = cli.cookies.entry(i);
        let ghost kk = k@;
        let ghost vv = v@;
        let ghost before = scenario.cookies@;
        scenario.cookies.insert_if_absent(k.clone(), v.clone());
        proof {
            let q = cli.cookies@;
            assert(q.take(i + 1) =~= q.take(i as int).push(q[i as int]));
            assert(q[i as int].0 == kk);
            assert forall|k2: Seq<char>| has_key(scenario.cookies@, k2) == (has_key(start, k2) || has_key(q.take(i + 1), k2)) by {
                lemma_pairs_push(q.take(i as int), q[i as int], k2);
                if k2 != kk {
                    assert(has_key(scenario.cookies@, k2) == has_key(before, k2));
                    assert(has_key(before, k2) == (has_key(start, k2) || has_key(q.take(i as int), k2)));
                }
            }
            assert forall|k2: Seq<char>| !has_key(start, k2) && has_key(q.take(i + 1), k2) implies value_of(scenario.cookies@, k2) == value_of(q, k2) by {
                lemma_pairs_push(q.take(i as int), q[i as int], k2);
            }
        }
        i = i + 1;
    }
    if cli.cookie_jar {
        scenario.cookie_jar = true;
    }
    proof {
        assert(cli.cookies@.take(cli.cookies@.len() as int) =~= cli.cookies@);
    }
    Ok(())
}

} // verus!
