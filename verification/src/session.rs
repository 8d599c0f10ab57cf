//! What each request of a run carries and which steps each arrival runs.
use vstd::prelude::*;

use crate::scenario::{
    copy_opt, opt_view, picked_index, total_weight_of, Scenario, ScenarioAuth, ScenarioMode, Step,
};
use crate::strmap::StrMap;
use crate::text::{chars_eq, chars_of, eq_ignore_ascii_case, eq_ignore_case, push_str};

verus! {

/// What each open-model arrival executes.
#[derive(Debug, Clone)]
pub enum Target {
    Single(Step),
    Scenario(Scenario),
}

impl Target {
    /// `"{method} {url}"` for a single URL, the scenario label otherwise.
    pub fn label(&self) -> (s: String)
        ensures
            s@ == match self {
                Target::Single(st) => st.method@ + " "@ + st.url@,
                Target::Scenario(sc) => sc.name@ + " ("@ + crate::text::dec(sc.steps@.len())
                    + " steps, "@ + crate::scenario::mode_name(sc.mode) + ")"@,
            },
    {
        match self {
            Target::Single(st) => {
                let mut s = st.method.clone();
                push_str(&mut s, " ");
                push_str(&mut s, st.url.as_str());
                s
            },
            Target::Scenario(sc) => sc.label(),
        }
    }
}

/// Auth + cookies resolved for a run (from the scenario file and/or CLI flags).
#[derive(Debug, Clone)]
pub struct SharedAuth {
    pub auth: ScenarioAuth,
    pub cookies: StrMap,
    pub cookie_jar: bool,
}

/// `sh` carries the credentials, cookies and jar setting of `s`.
pub open spec fn shares(s: Scenario, sh: SharedAuth) -> bool {
    &&& opt_view(sh.auth.bearer) == opt_view(s.auth.bearer)
    &&& opt_view(sh.auth.user) == opt_view(s.auth.user)
    &&& opt_view(sh.auth.password) == opt_view(s.auth.password)
    &&& sh.cookies@ == s.cookies@
    &&& sh.cookie_jar == s.cookie_jar
}

impl SharedAuth {
    /// The credentials, cookies and jar setting of a scenario.
    pub fn from_scenario(s: &Scenario) -> (r: Self)
        ensures
            shares(*s, r),
    {
        SharedAuth {
            auth: s.auth.duplicate(),
            cookies: s.cookies.duplicate(),
            cookie_jar: s.cookie_jar,
        }
    }

    /// The URL whose origin seeds the cookie jar: the single URL, or the
    /// scenario's first step.
    pub fn seed_url<'a>(&self, target: &'a Target) -> (u: &'a str)
        requires
            target matches Target::Scenario(sc) ==> sc.steps@.len() > 0,
        ensures
            u@ == match target {
                Target::Single(st) => st.url@,
                Target::Scenario(sc) => sc.steps@[0].url@,
            },
    {
        match target {
            Target::Single(step) => step.url.as_str(),
            Target::Scenario(s) => s.steps[0].url.as_str(),
        }
    }
}

/// `name=value` pairs joined by `"; "`, as a `Cookie` header.
pub open spec fn cookie_line(p: Seq<(Seq<char>, Seq<char>)>) -> Seq<char>
    decreases p.len(),
{
    if p.len() == 0 {
        Seq::empty()
    } else if p.len() == 1 {
        p[0].0 + "="@ + p[0].1
    } else {
        cookie_line(p.drop_last()) + "; "@ + p.last().0 + "="@ + p.last().1
    }
}

/// Per-request auth applied by workers (jar cookies live on the HTTP client).
#[derive(Debug, Clone, Default)]
pub struct Session {
    pub bearer: Option<String>,
    pub basic: Option<(String, String)>,
    /// Static `Cookie` header when the jar is off.
    pub cookie_header: Option<String>,
}

/// The character view of an optional pair of strings.
pub open spec fn basic_view(o: Option<(String, String)>) -> Option<(Seq<char>, Seq<char>)> {
    match o {
        Some((a, b)) => Some((a@, b@)),
        None => None,
    }
}

impl Session {
    /// Per-request credentials: the bearer token, Basic credentials when both
    /// user and password are set, and a static `Cookie` header when cookies
    /// are seeded and the jar is off.
    pub fn from_shared(shared: &SharedAuth) -> (s: Self)
        ensures
            opt_view(s.bearer) == opt_view(shared.auth.bearer),
            basic_view(s.basic) == match (shared.auth.user, shared.auth.password) {
                (Some(u), Some(p)) => Some((u@, p@)),
                _ => None,
            },
            opt_view(s.cookie_header) == if shared.cookie_jar || shared.cookies@.len() == 0 {
                None
            } else {
                Some(cookie_line(shared.cookies@))
            },
    {
        let cookie_header = if shared.cookie_jar || shared.cookies.is_empty() {
            None
        } else {
            let mut line = String::new();
            let mut i: usize = 0;
            let ghost p = shared.cookies@;
            while i < shared.cookies.len()
                invariant
                    i <= p.len(),
                    p == shared.cookies@,
                    p.len() > 0,
                    line@ == cookie_line(p.take(i as int)),
                decreases p.len() - i,
            {
                let (k, v) = shared.cookies.entry(i);
                if i > 0 {
                    push_str(&mut line, "; ");
                }
                push_str(&mut line, k.as_str());
                push_str(&mut line, "=");
                push_str(&mut line, v.as_str());
                proof {
                    let t = p.take(i + 1);
                    assert(t.drop_last() =~= p.take(i as int));
                    if i == 0 {
                        assert(p.take(0 as int) =~= Seq::<(Seq<char>, Seq<char>)>::empty());
                        assert(line@ =~= t[0].0 + "="@ + t[0].1);
                    } else {
                        assert(line@ =~= cookie_line(t.drop_last()) + "; "@ + t.last().0 + "="@
                            + t.last().1);
                    }
                }
                i = i + 1;
            }
            assert(p.take(p.len() as int) =~= p);
            Some(line)
        };
        let basic = match (&shared.auth.user, &shared.auth.password) {
            (Some(u), Some(p)) => Some((u.clone(), p.clone())),
            _ => None,
        };
        Session { bearer: copy_opt(&shared.auth.bearer), basic, cookie_header }
    }
}

/// The HTTP methods a request can be sent with.
#[derive(Debug, Clone, Copy, PartialEq, Eq, Structural)]
pub enum HttpMethod {
    Get,
    Post,
    Put,
    Patch,
    Delete,
    Head,
}

/// The method named by a (validated, upper-case) step method; anything else is GET.
pub open spec fn method_of(m: Seq<char>) -> HttpMethod {
    if m == "POST"@ {
        HttpMethod::Post
    } else if m == "PUT"@ {
        HttpMethod::Put
    } else if m == "PATCH"@ {
        HttpMethod::Patch
    } else if m == "DELETE"@ {
        HttpMethod::Delete
    } else if m == "HEAD"@ {
        HttpMethod::Head
    } else {
        HttpMethod::Get
    }
}

/// The HTTP method a step is sent with.
pub fn http_method(m: &str) -> (r: HttpMethod)
    ensures
        r == method_of(m@),
{
    let mc = chars_of(m);
    if chars_eq(mc.as_slice(), chars_of("POST").as_slice()) {
        HttpMethod::Post
    } else if chars_eq(mc.as_slice(), chars_of("PUT").as_slice()) {
        HttpMethod::Put
    } else if chars_eq(mc.as_slice(), chars_of("PATCH").as_slice()) {
        HttpMethod::Patch
    } else if chars_eq(mc.as_slice(), chars_of("DELETE").as_slice()) {
        HttpMethod::Delete
    } else if chars_eq(mc.as_slice(), chars_of("HEAD").as_slice()) {
        HttpMethod::Head
    } else {
        HttpMethod::Get
    }
}

/// Some header name of `p` equals `name` ignoring ASCII case.
pub open spec fn has_header(p: Seq<(Seq<char>, Seq<char>)>, name: Seq<char>) -> bool {
    exists|i: int| 0 <= i < p.len() && eq_ignore_case(#[trigger] p[i].0, name)
}

/// Whether a step's own headers set `name` (ignoring ASCII case).
pub fn step_sets_header(headers: &StrMap, name: &str) -> (b: bool)
    ensures
        b == has_header(headers@, name@),
{
    let nc = chars_of(name);
    let mut i: usize = 0;
    while i < headers.len()
        invariant
            i <= headers@.len(),
            nc@ == name@,
            forall|j: int| 0 <= j < i ==> !eq_ignore_case(#[trigger] headers@[j].0, name@),
        decreases headers@.len() - i,
    {
        let (k, _) = headers.entry(i);
        let kc = chars_of(k.as_str());
        if eq_ignore_ascii_case(kc.as_slice(), nc.as_slice()) {
            assert(eq_ignore_case(headers@[i as int].0, name@));
            return true;
        }
        i = i + 1;
    }
    false
}

/// Which credentials a request carries.
#[derive(Debug, Clone, PartialEq, Eq)]
pub enum AuthPlan {
    /// `Authorization: Bearer <token>`.
    Bearer(String),
    /// HTTP Basic with user and password.
    Basic(String, String),
    /// No credentials added (none configured, or the step sets its own).
    Nothing,
}

/// The credentials added to a request of `step`: none when the step sets its
/// own `Authorization` header; otherwise the bearer token, else Basic.
pub fn request_auth(step: &Step, session: &Session) -> (a: AuthPlan)
    ensures
        has_header(step.headers@, "authorization"@) ==> a == AuthPlan::Nothing,
        !has_header(step.headers@, "authorization"@) ==> match (session.bearer, session.basic) {
            (Some(t), _) => a matches AuthPlan::Bearer(x) && x@ == t@,
            (None, Some((u, p))) => a matches AuthPlan::Basic(x, y) && x@ == u@ && y@ == p@,
            (None, None) => a == AuthPlan::Nothing,
        },
{
    if step_sets_header(&step.headers, "authorization") {
        return AuthPlan::Nothing;
    }
    if let Some(token) = &session.bearer {
        AuthPlan::Bearer(token.clone())
    } else if let Some((user, pass)) = &session.basic {
        AuthPlan::Basic(user.clone(), pass.clone())
    } else {
        AuthPlan::Nothing
    }
}

/// The static `Cookie` header added to a request of `step`: none when the
/// step sets its own `Cookie` header.
pub fn request_cookie(step: &Step, session: &Session) -> (c: Option<String>)
    ensures
        opt_view(c) == if has_header(step.headers@, "cookie"@) {
            None
        } else {
            opt_view(session.cookie_header)
        },
{
    if step_sets_header(&step.headers, "cookie") {
        None
    } else {
        copy_opt(&session.cookie_header)
    }
}

/// One HTTP request an arrival makes.
#[derive(Debug, Clone, Copy, PartialEq, Eq, Structural)]
pub struct ArrivalStep {
    /// Index of the step (0 for a single URL).
    pub step: usize,
    /// Whether the sample is recorded under the step's name.
    pub tagged: bool,
    /// Think time to wait after this request before the next one, milliseconds.
    pub think_after_ms: u64,
}

/// The requests arrival `n` makes, in order.
pub open spec fn arrival_spec(t: Target, n: nat) -> Seq<ArrivalStep> {
    match t {
        Target::Single(_) => seq![ArrivalStep { step: 0, tagged: false, think_after_ms: 0 }],
        Target::Scenario(sc) => match sc.mode {
            ScenarioMode::Weighted => seq![
                ArrivalStep {
                    step: picked_index(sc.steps@, n) as usize,
                    tagged: true,
                    think_after_ms: 0,
                },
            ],
            ScenarioMode::Sequence => Seq::new(
                sc.steps@.len(),
                |i: int|
                    ArrivalStep {
                        step: i as usize,
                        tagged: true,
                        think_after_ms: if sc.steps@[i].think_ms > 0 && i + 1 < sc.steps@.len() {
                            sc.steps@[i].think_ms
                        } else {
                            0
                        },
                    },
            ),
        },
    }
}

impl Target {
    /// The requests arrival number `n` makes: one untagged request for a single
    /// URL, the weighted pick for a weighted mix, or every step in order (with
    /// its think time before the next step) for a journey.
    pub fn arrival_plan(&self, n: u64) -> (plan: Vec<ArrivalStep>)
        requires
            self matches Target::Scenario(sc) ==> (sc.mode == ScenarioMode::Weighted ==> sc.steps@.len()
                > 0 && total_weight_of(sc.steps@) <= u32::MAX),
        ensures
            plan@ == arrival_spec(*self, n as nat),
    {
        match self {
            Target::Single(_) => {
                let mut v = Vec::new();
                v.push(ArrivalStep { step: 0, tagged: false, think_after_ms: 0 });
                assert(v@ =~= arrival_spec(*self, n as nat));
                v
            },
            Target::Scenario(sc) => match sc.mode {
                ScenarioMode::Weighted => {
                    let k = sc.pick_weighted_index(n);
                    let mut v = Vec::new();
                    v.push(ArrivalStep { step: k, tagged: true, think_after_ms: 0 });
                    assert(v@ =~= arrival_spec(*self, n as nat));
                    v
                },
                ScenarioMode::Sequence => {
                    let mut v: Vec<ArrivalStep> = Vec::new();
                    let len = sc.steps.len();
                    let mut i: usize = 0;
                    while i < len
                        invariant
                            len == sc.steps@.len(),
                            i <= len,
                            sc.mode == ScenarioMode::Sequence,
                            *self == Target::Scenario(*sc),
                            v@ =~= arrival_spec(*self, n as nat).take(i as int),
                        decreases len - i,
                    {
                        let think = sc.steps[i].think_ms;
                        let after = if think > 0 && i + 1 < len {
                            think
                        } else {
                            0
                        };
                        v.push(ArrivalStep { step: i, tagged: true, think_after_ms: after });
                        i = i + 1;
                    }
                    v
                },
            },
        }
    }
}

/// Remembers why the first failed request failed, so a run can explain itself.
#[derive(Debug, Clone, Default)]
pub struct FailureNote {
    reason: Option<String>,
}

impl FailureNote {
    /// Nothing noted yet.
    pub fn new() -> (f: Self)
        ensures
            f.noted() is None,
    {
        FailureNote { reason: None }
    }

    /// The reason noted, if any.
    pub closed spec fn noted(&self) -> Option<Seq<char>> {
        opt_view(self.reason)
    }

    /// Record the reason `reason` builds unless a reason is already noted:
    /// the first one wins, and `reason` runs only when it is the first.
    pub fn note_failure<F: FnOnce() -> String>(&mut self, reason: F)
        requires
            call_requires(reason, ()),
        ensures
            old(self).noted() is Some ==> final(self).noted() == old(self).noted(),
            old(self).noted() is None ==> exists|r: String|
                #[trigger] call_ensures(reason, (), r) && final(self).noted() == Some(r@),
    {
        if self.reason.is_none() {
            let r = reason();
            self.reason = Some(r);
        }
    }

    /// The first reason a request failed, if any did.
    pub fn first_failure(&self) -> (r: Option<&str>)
        ensures
            crate::diagnosis::opt_str_view(r) == self.noted(),
    {
        match &self.reason {
            Some(s) => Some(s.as_str()),
            None => None,
        }
    }
}

/// What is noted after failures with the reasons `reasons`, in order, when
/// `prev` was noted before them.
pub open spec fn noted_after(prev: Option<Seq<char>>, reasons: Seq<Seq<char>>) -> Option<Seq<char>>
    decreases reasons.len(),
{
    if reasons.len() == 0 {
        prev
    } else {
        noted_after(
            if prev is Some {
                prev
            } else {
                Some(reasons[0])
            },
            reasons.drop_first(),
        )
    }
}

/// Law: after any sequence of failures the note holds the first reason ever
/// given, and nothing when no failure was noted; later failures never change
/// it. One step of `noted_after` is what one `note_failure` call does.
pub proof fn law_first_failure_wins(prev: Option<Seq<char>>, reasons: Seq<Seq<char>>)
    ensures
        reasons.len() == 1 ==> noted_after(prev, reasons) == if prev is Some {
            prev
        } else {
            Some(reasons[0])
        },
        prev is Some ==> noted_after(prev, reasons) == prev,
        prev is None && reasons.len() == 0 ==> noted_after(prev, reasons) is None,
        prev is None && reasons.len() > 0 ==> noted_after(prev, reasons) == Some(reasons[0]),
    decreases reasons.len(),
{
    if reasons.len() > 0 {
        let next = if prev is Some { prev } else { Some(reasons[0]) };
        law_first_failure_wins(next, reasons.drop_first());
        if reasons.len() == 1 {
            assert(reasons.drop_first().len() == 0);
        }
    }
}

/// Shared, read-mostly configuration the UI shows in its header.
#[derive(Debug, Clone)]
pub struct RunInfo {
    pub url: String,
    pub profile_label: String,
    pub duration: u64,
}

} // verus!
