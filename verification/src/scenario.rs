//! HTTP scenario definitions (pure data — no I/O).
use vstd::prelude::*;

use crate::strmap::StrMap;
use crate::text::{
    all_ws, ascii_upper, chars_eq, chars_of, contains_char, dec, is_blank, owned, push_dec, push_str,
    string_of, to_upper,
};

verus! {

/// How arrivals pick work from a scenario file.
#[derive(Debug, Clone, Copy, PartialEq, Eq, Structural)]
pub enum ScenarioMode {
    /// Run every step in order (API journey), honoring `think_ms` between steps.
    Sequence,
    /// Each arrival picks a single step by `weight`.
    Weighted,
}

impl Default for ScenarioMode {
    fn default() -> (m: Self)
        ensures
            m == ScenarioMode::Sequence,
    {
        ScenarioMode::Sequence
    }
}

/// Shared credentials applied to every step in a scenario.
///
/// Prefer `bearer`, or `user` + `password` for HTTP Basic. Mixing both is an error.
#[derive(Debug, Clone, PartialEq, Eq, Default)]
pub struct ScenarioAuth {
    /// `Authorization: Bearer …`
    pub bearer: Option<String>,
    /// Basic-auth username (pair with `password`).
    pub user: Option<String>,
    /// Basic-auth password.
    pub password: Option<String>,
}

/// The character view of an optional string.
pub open spec fn opt_view(o: Option<String>) -> Option<Seq<char>> {
    match o {
        Some(s) => Some(s@),
        None => None,
    }
}

/// Why a set of credentials is unusable, if it is.
pub open spec fn auth_error(a: ScenarioAuth) -> Option<Seq<char>> {
    if a.bearer matches Some(t) && t@.len() == 0 {
        Some("auth.bearer must not be empty"@)
    } else if a.bearer is Some && (a.user is Some || a.password is Some) {
        Some("auth: use bearer *or* user/password, not both"@)
    } else {
        match (a.user, a.password) {
            (None, None) => None,
            (Some(u), Some(_)) => if u@.len() == 0 {
                Some("auth.user must not be empty"@)
            } else {
                None
            },
            (Some(_), None) => Some("auth.password is required when auth.user is set"@),
            (None, Some(_)) => Some("auth.user is required when auth.password is set"@),
        }
    }
}

impl ScenarioAuth {
    /// No credentials at all.
    pub fn is_empty(&self) -> (b: bool)
        ensures
            b == (self.bearer is None && self.user is None && self.password is None),
    {
        self.bearer.is_none() && self.user.is_none() && self.password.is_none()
    }

    /// Reject contradictory or incomplete credentials.
    pub fn validate(&self) -> (r: Result<(), String>)
        ensures
            r is Ok <==> auth_error(*self) is None,
            r matches Err(e) ==> auth_error(*self) == Some(e@),
    {
        if let Some(tok) = &self.bearer {
            if tok.as_str().is_empty() {
                return Err(owned("auth.bearer must not be empty"));
            }
        }
        if self.bearer.is_some() && (self.user.is_some() || self.password.is_some()) {
            return Err(owned("auth: use bearer *or* user/password, not both"));
        }
        match (&self.user, &self.password) {
            (None, None) => Ok(()),
            (Some(u), Some(_)) => {
                if u.as_str().is_empty() {
                    Err(owned("auth.user must not be empty"))
                } else {
                    Ok(())
                }
            },
            (Some(_), None) => Err(owned("auth.password is required when auth.user is set")),
            (None, Some(_)) => Err(owned("auth.user is required when auth.password is set")),
        }
    }

    /// A field-by-field copy.
    pub fn duplicate(&self) -> (r: Self)
        ensures
            opt_view(r.bearer) == opt_view(self.bearer),
            opt_view(r.user) == opt_view(self.user),
            opt_view(r.password) == opt_view(self.password),
    {
        ScenarioAuth {
            bearer: copy_opt(&self.bearer),
            user: copy_opt(&self.user),
            password: copy_opt(&self.password),
        }
    }
}

/// A copy of an optional string.
pub fn copy_opt(o: &Option<String>) -> (r: Option<String>)
    ensures
        opt_view(r) == opt_view(*o),
{
    match o {
        Some(s) => Some(s.clone()),
        None => None,
    }
}

/// One HTTP request template inside a scenario.
#[derive(Debug, Clone, PartialEq)]
pub struct Step {
    /// Optional label for reports / debugging.
    pub name: String,
    /// GET, POST, PUT, PATCH, DELETE, HEAD (case-insensitive). Default GET.
    pub method: String,
    pub url: String,
    /// Relative selection weight when `mode = "weighted"`. Default 1.
    pub weight: u32,
    /// Pause after this step before the next (sequence mode only), milliseconds.
    pub think_ms: u64,
    /// Optional request body (typically with POST/PUT/PATCH).
    pub body: Option<String>,
    /// Extra headers as key → value.
    pub headers: StrMap,
}

/// The method a step gets when its definition names none.
pub fn default_method() -> (m: String)
    ensures
        m@ == "GET"@,
{
    owned("GET")
}

/// The weight a step gets when its definition names none.
pub fn default_weight() -> (w: u32)
    ensures
        w == 1,
{
    1
}

/// A multi-step (or weighted) load scenario.
#[derive(Debug, Clone, PartialEq)]
pub struct Scenario {
    pub name: String,
    pub mode: ScenarioMode,
    pub steps: Vec<Step>,
    /// Credentials applied to every step unless a step overrides `Authorization`.
    pub auth: ScenarioAuth,
    /// Seed cookies (`name = value`) sent on every request.
    pub cookies: StrMap,
    /// Persist `Set-Cookie` from responses and replay them (login → API journeys).
    pub cookie_jar: bool,
}

/// The HTTP methods a step may use, upper-cased.
pub open spec fn supported_method(m: Seq<char>) -> bool {
    ||| m == "GET"@
    ||| m == "POST"@
    ||| m == "PUT"@
    ||| m == "PATCH"@
    ||| m == "DELETE"@
    ||| m == "HEAD"@
}

/// Why the cookie entries from index `i` on are unusable, for the first bad one.
pub open spec fn cookie_error_from(p: Seq<(Seq<char>, Seq<char>)>, i: int) -> Option<Seq<char>>
    decreases p.len() - i,
{
    if i < 0 || i >= p.len() {
        None
    } else if p[i].0.len() == 0 {
        Some("cookies: name must not be empty"@)
    } else if p[i].1.contains(';') {
        Some(
            "cookies."@ + p[i].0
                + ": value must not contain `;` (put attributes in the jar via Set-Cookie)"@,
        )
    } else {
        cookie_error_from(p, i + 1)
    }
}

/// Why a step number `i` with this URL and method is unusable, if it is.
pub open spec fn step_error_of(i: nat, url: Seq<char>, method: Seq<char>) -> Option<Seq<char>> {
    if all_ws(url) {
        Some("step "@ + dec(i) + ": url is required"@)
    } else if !supported_method(ascii_upper(method)) {
        Some(
            "step "@ + dec(i) + ": unsupported method `"@ + ascii_upper(method)
                + "` (use GET/POST/PUT/PATCH/DELETE/HEAD)"@,
        )
    } else {
        None
    }
}

/// Why step number `i` is unusable, if it is.
pub open spec fn step_error(i: nat, s: Step) -> Option<Seq<char>> {
    step_error_of(i, s.url@, s.method@)
}

/// The first error among the steps from index `i` on.
pub open spec fn steps_error_from(steps: Seq<Step>, i: int) -> Option<Seq<char>>
    decreases steps.len() - i,
{
    if i < 0 || i >= steps.len() {
        None
    } else if step_error(i as nat, steps[i]) is Some {
        step_error(i as nat, steps[i])
    } else {
        steps_error_from(steps, i + 1)
    }
}

/// Why a scenario is unusable, checking in the order `validate` does.
pub open spec fn scenario_error(s: Scenario) -> Option<Seq<char>> {
    if s.steps@.len() == 0 {
        Some("scenario must have at least one step"@)
    } else if auth_error(s.auth) is Some {
        auth_error(s.auth)
    } else if cookie_error_from(s.cookies@, 0) is Some {
        cookie_error_from(s.cookies@, 0)
    } else {
        steps_error_from(s.steps@, 0)
    }
}

/// `t` is step number `i` of a validated scenario whose definition was `s`.
pub open spec fn normalized_step(i: nat, s: Step, t: Step) -> bool {
    &&& t.name@ == (if s.name@.len() == 0 {
        "step-"@ + dec(i)
    } else {
        s.name@
    })
    &&& t.method@ == ascii_upper(s.method@)
    &&& t.url@ == s.url@
    &&& t.weight == (if s.weight == 0 {
        1
    } else {
        s.weight
    })
    &&& t.think_ms == s.think_ms
    &&& opt_view(t.body) == opt_view(s.body)
    &&& t.headers@ == s.headers@
}

/// `t` is the validated form of the scenario definition `s`.
pub open spec fn normalized(s: Scenario, t: Scenario) -> bool {
    &&& t.name@ == (if s.name@.len() == 0 {
        "scenario"@
    } else {
        s.name@
    })
    &&& t.mode == s.mode
    &&& t.steps@.len() == s.steps@.len()
    &&& forall|i: int|
        0 <= i < s.steps@.len() ==> normalized_step(i as nat, #[trigger] s.steps@[i], t.steps@[i])
    &&& opt_view(t.auth.bearer) == opt_view(s.auth.bearer)
    &&& opt_view(t.auth.user) == opt_view(s.auth.user)
    &&& opt_view(t.auth.password) == opt_view(s.auth.password)
    &&& t.cookies@ == s.cookies@
    &&& t.cookie_jar == s.cookie_jar
}

/// `max(w, 1)`: the weight a step counts for.
pub open spec fn eff_weight(s: Step) -> nat {
    if s.weight == 0 {
        1
    } else {
        s.weight as nat
    }
}

/// Sum of the effective weights of the first `n` steps.
pub open spec fn weight_sum(steps: Seq<Step>, n: int) -> nat
    decreases n,
{
    if n <= 0 || n > steps.len() {
        0
    } else {
        weight_sum(steps, n - 1) + eff_weight(steps[n - 1])
    }
}

/// Total effective weight of all steps.
pub open spec fn total_weight_of(steps: Seq<Step>) -> nat {
    weight_sum(steps, steps.len() as int)
}

/// The step picked for residue `r`, scanning from step `i`.
pub open spec fn pick_from(steps: Seq<Step>, i: int, r: int) -> int
    decreases steps.len() - i,
{
    if i < 0 || i >= steps.len() {
        0
    } else if r < eff_weight(steps[i]) {
        i
    } else {
        pick_from(steps, i + 1, r - eff_weight(steps[i]))
    }
}

/// Index of the step that arrival `n` runs in weighted mode.
pub open spec fn picked_index(steps: Seq<Step>, n: nat) -> int {
    pick_from(steps, 0, (n % total_weight_of(steps)) as int)
}

/// The ASCII name `Debug` prints for a mode.
pub open spec fn mode_name(m: ScenarioMode) -> Seq<char> {
    match m {
        ScenarioMode::Sequence => "Sequence"@,
        ScenarioMode::Weighted => "Weighted"@,
    }
}

/// Appends the name `Debug` prints for `m`.
pub fn push_mode_name(out: &mut String, m: ScenarioMode)
    ensures
        final(out)@ == old(out)@ + mode_name(m),
{
    match m {
        ScenarioMode::Sequence => push_str(out, "Sequence"),
        ScenarioMode::Weighted => push_str(out, "Weighted"),
    }
}

/// Whether the cookie entries are all usable; the first bad one otherwise.
fn check_cookies(cookies: &StrMap) -> (r: Result<(), String>)
    ensures
        r is Ok <==> cookie_error_from(cookies@, 0) is None,
        r matches Err(e) ==> cookie_error_from(cookies@, 0) == Some(e@),
{
    let mut i: usize = 0;
    while i < cookies.len()
        invariant
            i <= cookies@.len(),
            cookie_error_from(cookies@, 0) == cookie_error_from(cookies@, i as int),
        decreases cookies@.len() - i,
    {
        let (name, value) = cookies.entry(i);
        let nc = chars_of(name.as_str());
        if nc.len() == 0 {
            return Err(owned("cookies: name must not be empty"));
        }
        let vc = chars_of(value.as_str());
        if contains_char(vc.as_slice(), ';') {
            let mut e = owned("cookies.");
            push_str(&mut e, name.as_str());
            push_str(&mut e, ": value must not contain `;` (put attributes in the jar via Set-Cookie)");
            return Err(e);
        }
        i = i + 1;
    }
    Ok(())
}

/// Whether upper-cased `m` is one of the supported methods.
fn is_supported_method(m: &[char]) -> (b: bool)
    ensures
        b == supported_method(m@),
{
    let get = chars_of("GET");
    let post = chars_of("POST");
    let put = chars_of("PUT");
    let patch = chars_of("PATCH");
    let delete = chars_of("DELETE");
    let head = chars_of("HEAD");
    chars_eq(m, get.as_slice()) || chars_eq(m, post.as_slice()) || chars_eq(m, put.as_slice())
        || chars_eq(m, patch.as_slice()) || chars_eq(m, delete.as_slice()) || chars_eq(
        m,
        head.as_slice(),
    )
}

/// `"step {i}"`.
fn step_prefix(i: usize) -> (s: String)
    ensures
        s@ == "step "@ + dec(i as nat),
{
    let mut s = owned("step ");
    push_dec(&mut s, i as u64);
    s
}

/// Validates and normalizes step number `i`.
fn normalize_step(i: usize, step: Step) -> (r: Result<Step, String>)
    ensures
        r is Ok <==> step_error(i as nat, step) is None,
        r matches Err(e) ==> step_error(i as nat, step) == Some(e@),
        r matches Ok(t) ==> normalized_step(i as nat, step, t),
{
    let url_chars = chars_of(step.url.as_str());
    if is_blank(url_chars.as_slice()) {
        let mut e = step_prefix(i);
        push_str(&mut e, ": url is required");
        return Err(e);
    }
    let m = to_upper(chars_of(step.method.as_str()).as_slice());
    if !is_supported_method(m.as_slice()) {
        let mut e = step_prefix(i);
        push_str(&mut e, ": unsupported method `");
        let ms = string_of(m.as_slice());
        push_str(&mut e, ms.as_str());
        push_str(&mut e, "` (use GET/POST/PUT/PATCH/DELETE/HEAD)");
        return Err(e);
    }
    let Step { name, method: _, url, weight, think_ms, body, headers } = step;
    let weight = if weight == 0 {
        1
    } else {
        weight
    };
    let name = if name.as_str().is_empty() {
        let mut n = owned("step-");
        push_dec(&mut n, i as u64);
        n
    } else {
        name
    };
    Ok(Step { name, method: string_of(m.as_slice()), url, weight, think_ms, body, headers })
}

impl Scenario {
    /// Validate and normalize; returns a human-readable error if unusable.
    #[verifier::loop_isolation(false)]
    pub fn validate(self) -> (r: Result<Self, String>)
        ensures
            r is Ok <==> scenario_error(self) is None,
            r matches Err(e) ==> scenario_error(self) == Some(e@),
            r matches Ok(v) ==> normalized(self, v),
    {
        let ghost orig = self;
        if self.steps.len() == 0 {
            return Err(owned("scenario must have at least one step"));
        }
        self.auth.validate()?;
        check_cookies(&self.cookies)?;
        let Scenario { name, mode, steps, auth, cookies, cookie_jar } = self;
        let mut out: Vec<Step> = Vec::new();
        let n = steps.len();
        for step in it: steps.into_iter()
            invariant
                n == orig.steps@.len(),
                it.seq() == orig.steps@,
                scenario_error(orig) == steps_error_from(orig.steps@, 0),
                out@.len() == it.index(),
                steps_error_from(orig.steps@, 0) == steps_error_from(orig.steps@, it.index() as int),
                forall|j: int|
                    0 <= j < it.index() ==> normalized_step(
                        j as nat,
                        #[trigger] orig.steps@[j],
                        out@[j],
                    ),
        {
            let i = out.len();
            assert(step == orig.steps@[i as int]);
            match normalize_step(i, step) {
                Ok(t) => out.push(t),
                Err(e) => {
                    return Err(e);
                },
            }
        }
        let name = if name.as_str().is_empty() {
            owned("scenario")
        } else {
            name
        };
        Ok(Scenario { name, mode, steps: out, auth, cookies, cookie_jar })
    }

    /// `"{name} ({n} steps, {mode:?})"`.
    pub fn label(&self) -> (s: String)
        ensures
            s@ == self.name@ + " ("@ + dec(self.steps@.len()) + " steps, "@ + mode_name(self.mode)
                + ")"@,
    {
        let mut s = self.name.clone();
        push_str(&mut s, " (");
        push_dec(&mut s, self.steps.len() as u64);
        push_str(&mut s, " steps, ");
        push_mode_name(&mut s, self.mode);
        push_str(&mut s, ")");
        s
    }

    /// Total weight across steps (each step at least 1).
    pub fn total_weight(&self) -> (w: u32)
        requires
            total_weight_of(self.steps@) <= u32::MAX,
        ensures
            w == total_weight_of(self.steps@),
    {
        let mut w: u32 = 0;
        let mut i: usize = 0;
        while i < self.steps.len()
            invariant
                i <= self.steps@.len(),
                w == weight_sum(self.steps@, i as int),
                total_weight_of(self.steps@) <= u32::MAX,
            decreases self.steps@.len() - i,
        {
            proof {
                lemma_weight_sum_monotone(self.steps@, i + 1, self.steps@.len() as int);
            }
            let s = &self.steps[i];
            let ew = if s.weight == 0 {
                1
            } else {
                s.weight
            };
            w = w + ew;
            i = i + 1;
        }
        w
    }

    /// Index of the step that arrival `n` runs in weighted mode.
    pub fn pick_weighted_index(&self, n: u64) -> (k: usize)
        requires
            self.steps@.len() > 0,
            total_weight_of(self.steps@) <= u32::MAX,
        ensures
            k == picked_index(self.steps@, n as nat),
            k < self.steps@.len(),
    {
        proof {
            lemma_weight_sum_positive(self.steps@);
            lemma_pick_in_range(self.steps@, 0, ((n as nat) % total_weight_of(self.steps@)) as int);
        }
        let total = self.total_weight() as u64;
        let mut r = n % total;
        let mut i: usize = 0;
        while i < self.steps.len()
            invariant
                i <= self.steps@.len(),
                total == total_weight_of(self.steps@),
                total > 0,
                pick_from(self.steps@, 0, (n % total) as int) == pick_from(
                    self.steps@,
                    i as int,
                    r as int,
                ),
            decreases self.steps@.len() - i,
        {
            let step = &self.steps[i];
            let w: u64 = if step.weight == 0 {
                1
            } else {
                step.weight as u64
            };
            if r < w {
                return i;
            }
            r = r - w;
            i = i + 1;
        }
        0
    }

    /// Pick a step by weight using a stable counter (`n` = arrival index).
    pub fn pick_weighted(&self, n: u64) -> (s: &Step)
        requires
            self.steps@.len() > 0,
            total_weight_of(self.steps@) <= u32::MAX,
        ensures
            *s == self.steps@[picked_index(self.steps@, n as nat)],
    {
        let k = self.pick_weighted_index(n);
        &self.steps[k]
    }
}

/// The scan always lands on a real step.
pub proof fn lemma_pick_in_range(steps: Seq<Step>, i: int, r: int)
    requires
        steps.len() > 0,
        0 <= i,
    ensures
        0 <= pick_from(steps, i, r) < steps.len(),
    decreases steps.len() - i,
{
    if 0 <= i < steps.len() && r >= eff_weight(steps[i]) {
        lemma_pick_in_range(steps, i + 1, r - eff_weight(steps[i]));
    }
}

/// Adding steps never lowers the weight sum.
pub proof fn lemma_weight_sum_monotone(steps: Seq<Step>, a: int, b: int)
    requires
        0 <= a <= b <= steps.len(),
    ensures
        weight_sum(steps, a) <= weight_sum(steps, b),
    decreases b - a,
{
    if a < b {
        lemma_weight_sum_monotone(steps, a, b - 1);
    }
}

/// A non-empty scenario has positive total weight.
pub proof fn lemma_weight_sum_positive(steps: Seq<Step>)
    requires
        steps.len() > 0,
    ensures
        total_weight_of(steps) >= 1,
{
    lemma_weight_sum_monotone(steps, 1, steps.len() as int);
}

/// Upper-casing twice is upper-casing once.
pub proof fn lemma_ascii_upper_idempotent(m: Seq<char>)
    ensures
        ascii_upper(ascii_upper(m)) == ascii_upper(m),
{
    assert forall|k: int| 0 <= k < m.len() implies #[trigger] ascii_upper(ascii_upper(m))[k]
        == ascii_upper(m)[k] by {
        let c = m[k];
        if 'a' <= c && c <= 'z' {
            assert(((c as u32) - 32) as char as u32 == (c as u32) - 32);
        }
    }
    assert(ascii_upper(ascii_upper(m)) =~= ascii_upper(m));
}

/// The validity check only reads the text of the credentials.
proof fn lemma_auth_error_by_view(a: ScenarioAuth, b: ScenarioAuth)
    requires
        opt_view(a.bearer) == opt_view(b.bearer),
        opt_view(a.user) == opt_view(b.user),
        opt_view(a.password) == opt_view(b.password),
    ensures
        auth_error(a) == auth_error(b),
{
}

/// `dec` never renders an empty string, so a generated step name is never empty.
proof fn lemma_step_name_nonempty(i: nat)
    ensures
        ("step-"@ + dec(i)).len() > 0,
{
    crate::text::lemma_dec_nonempty(i);
}

/// Law: validation is idempotent — a validated scenario is valid and
/// validating it again changes nothing.
pub proof fn law_validate_idempotent(s: Scenario, t: Scenario)
    requires
        scenario_error(s) is None,
        normalized(s, t),
    ensures
        scenario_error(t) is None,
        normalized(t, t),
{
    lemma_auth_error_by_view(s.auth, t.auth);
    assert forall|i: int| 0 <= i < t.steps@.len() implies step_error(
        i as nat,
        #[trigger] t.steps@[i],
    ) is None && normalized_step(i as nat, t.steps@[i], t.steps@[i]) by {
        assert(normalized_step(i as nat, s.steps@[i], t.steps@[i]));
        lemma_steps_error_none_at(s.steps@, 0, i);
        lemma_ascii_upper_idempotent(s.steps@[i].method@);
        lemma_step_name_nonempty(i as nat);
    }
    lemma_steps_error_none_from(t.steps@, 0);
}

/// `m`, upper-cased, is one of GET, POST, PUT, PATCH, DELETE and HEAD.
pub open spec fn standard_method(m: Seq<char>) -> bool {
    let u = ascii_upper(m);
    u == "GET"@ || u == "POST"@ || u == "PUT"@ || u == "PATCH"@ || u == "DELETE"@ || u == "HEAD"@
}

/// Law: a step whose URL is not blank and whose method is GET, POST, PUT,
/// PATCH, DELETE or HEAD, in any case, is accepted.
pub proof fn law_standard_methods_accepted(i: nat, url: Seq<char>, method: Seq<char>)
    requires
        !all_ws(url),
        standard_method(method),
    ensures
        step_error_of(i, url, method) is None,
{
}

/// Law: a scenario of steps with non-blank URLs and standard methods (in any
/// case), valid credentials and valid cookies validates.
pub proof fn law_standard_scenario_validates(s: Scenario)
    requires
        s.steps@.len() > 0,
        auth_error(s.auth) is None,
        cookie_error_from(s.cookies@, 0) is None,
        forall|i: int|
            0 <= i < s.steps@.len() ==> !all_ws((#[trigger] s.steps@[i]).url@) && standard_method(
                s.steps@[i].method@,
            ),
    ensures
        scenario_error(s) is None,
{
    assert forall|i: int| 0 <= i < s.steps@.len() implies step_error(
        i as nat,
        #[trigger] s.steps@[i],
    ) is None by {
        law_standard_methods_accepted(i as nat, s.steps@[i].url@, s.steps@[i].method@);
    }
    lemma_steps_error_none_from(s.steps@, 0);
}

/// When no step from `j` on is faulty, step `i >= j` has no error.
proof fn lemma_steps_error_none_at(steps: Seq<Step>, j: int, i: int)
    requires
        0 <= j <= i < steps.len(),
        steps_error_from(steps, j) is None,
    ensures
        step_error(i as nat, steps[i]) is None,
    decreases i - j,
{
    if j < i {
        lemma_steps_error_none_at(steps, j + 1, i);
    }
}

/// If no individual step is faulty, the scan finds no error.
proof fn lemma_steps_error_none_from(steps: Seq<Step>, j: int)
    requires
        0 <= j,
        forall|i: int| 0 <= i < steps.len() ==> step_error(i as nat, #[trigger] steps[i]) is None,
    ensures
        steps_error_from(steps, j) is None,
    decreases steps.len() - j,
{
    if j < steps.len() {
        lemma_steps_error_none_from(steps, j + 1);
    }
}

/// Number of arrivals `n` in `[lo, lo + len)` that run step `i` in weighted mode.
pub open spec fn arrivals_picking(steps: Seq<Step>, i: int, lo: nat, len: nat) -> nat
    decreases len,
{
    if len == 0 {
        0
    } else {
        arrivals_picking(steps, i, lo, (len - 1) as nat) + (if picked_index(
            steps,
            (lo + len - 1) as nat,
        ) == i {
            1nat
        } else {
            0nat
        })
    }
}

/// Number of residues `r` in `[0, m)` that the scan assigns to step `i`.
pub open spec fn residues_picking(steps: Seq<Step>, i: int, m: nat) -> nat
    decreases m,
{
    if m == 0 {
        0
    } else {
        residues_picking(steps, i, (m - 1) as nat) + (if pick_from(steps, 0, m - 1) == i {
            1nat
        } else {
            0nat
        })
    }
}

/// A residue inside step `i`'s band of the weight line is assigned to step `i`.
proof fn lemma_pick_band(steps: Seq<Step>, j: int, i: int, r: int)
    requires
        0 <= j <= i < steps.len(),
        weight_sum(steps, i) <= r < weight_sum(steps, i + 1),
    ensures
        pick_from(steps, j, r - weight_sum(steps, j)) == i,
    decreases i - j,
{
    if j < i {
        lemma_weight_sum_monotone(steps, j + 1, i);
        lemma_pick_band(steps, j + 1, i, r);
    }
}

/// Every residue below the total weight falls in some step's band.
proof fn lemma_band_exists(steps: Seq<Step>, r: int, n: int)
    requires
        0 <= r < weight_sum(steps, n),
        0 <= n <= steps.len(),
    ensures
        exists|j: int|
            0 <= j < n && weight_sum(steps, j) <= r < #[trigger] weight_sum(steps, j + 1),
    decreases n,
{
    if r < weight_sum(steps, n - 1) {
        lemma_band_exists(steps, r, n - 1);
        let j = choose|j: int|
            0 <= j < n - 1 && weight_sum(steps, j) <= r < #[trigger] weight_sum(steps, j + 1);
        assert(0 <= j < n && weight_sum(steps, j) <= r < weight_sum(steps, j + 1));
    } else {
        assert(weight_sum(steps, (n - 1) + 1) == weight_sum(steps, n));
    }
}

/// A residue is assigned to step `i` exactly when it lies in step `i`'s band.
proof fn lemma_pick_iff_band(steps: Seq<Step>, i: int, r: int)
    requires
        0 <= i < steps.len(),
        0 <= r < total_weight_of(steps),
    ensures
        (pick_from(steps, 0, r) == i) <==> (weight_sum(steps, i) <= r < weight_sum(steps, i + 1)),
{
    lemma_band_exists(steps, r, steps.len() as int);
    let j = choose|j: int|
        0 <= j < steps.len() && weight_sum(steps, j) <= r < #[trigger] weight_sum(steps, j + 1);
    lemma_pick_band(steps, 0, j, r);
    if j != i {
        if j < i {
            lemma_weight_sum_monotone(steps, j + 1, i);
        } else {
            lemma_weight_sum_monotone(steps, i + 1, j);
        }
    }
}

/// Counting residues below `m` that land in step `i`'s band.
proof fn lemma_residue_count(steps: Seq<Step>, i: int, m: nat)
    requires
        0 <= i < steps.len(),
        m <= total_weight_of(steps),
    ensures
        residues_picking(steps, i, m) == (if m <= weight_sum(steps, i) {
            0
        } else if m <= weight_sum(steps, i + 1) {
            m - weight_sum(steps, i)
        } else {
            weight_sum(steps, i + 1) - weight_sum(steps, i)
        }),
    decreases m,
{
    lemma_weight_sum_monotone(steps, i, i + 1);
    if m > 0 {
        lemma_residue_count(steps, i, (m - 1) as nat);
        lemma_pick_iff_band(steps, i, m - 1);
    }
}

/// Counting a window of arrivals from its first element instead of its last.
proof fn lemma_arrivals_front(steps: Seq<Step>, i: int, lo: nat, len: nat)
    requires
        len >= 1,
    ensures
        arrivals_picking(steps, i, lo, len) == (if picked_index(steps, lo) == i {
            1nat
        } else {
            0nat
        }) + arrivals_picking(steps, i, lo + 1, (len - 1) as nat),
    decreases len,
{
    if len > 1 {
        lemma_arrivals_front(steps, i, lo, (len - 1) as nat);
        assert((lo + 1 + (len - 1) - 1) as nat == (lo + len - 1) as nat);
        assert(arrivals_picking(steps, i, lo + 1, (len - 1) as nat) == arrivals_picking(
            steps,
            i,
            lo + 1,
            (len - 2) as nat,
        ) + (if picked_index(steps, (lo + len - 1) as nat) == i {
            1nat
        } else {
            0nat
        }));
    } else {
        assert(arrivals_picking(steps, i, lo, 0) == 0);
        assert(arrivals_picking(steps, i, lo + 1, 0) == 0);
    }
}

/// Law: in weighted mode the schedule repeats every `total_weight` arrivals.
pub proof fn law_weighted_pick_periodic(steps: Seq<Step>, n: nat)
    requires
        steps.len() > 0,
    ensures
        picked_index(steps, n + total_weight_of(steps)) == picked_index(steps, n),
{
    lemma_weight_sum_positive(steps);
    let t = total_weight_of(steps) as int;
    vstd::arithmetic::div_mod::lemma_mod_add_multiples_vanish(n as int, t);
    assert((n + t) % t == n as int % t);
}

/// Law: every run of `total_weight` consecutive arrivals runs each step
/// exactly as many times as its weight (a weight of 0 counts as 1).
pub proof fn law_weighted_pick_share(steps: Seq<Step>, i: int, k: nat)
    requires
        0 <= i < steps.len(),
    ensures
        arrivals_picking(steps, i, k, total_weight_of(steps)) == eff_weight(steps[i]),
    decreases k,
{
    lemma_weight_sum_positive(steps);
    let t = total_weight_of(steps);
    if k == 0 {
        lemma_weight_sum_monotone(steps, i + 1, steps.len() as int);
        lemma_residue_count(steps, i, t);
        assert forall|m: nat| m <= t implies arrivals_picking(steps, i, 0, m) == residues_picking(
            steps,
            i,
            m,
        ) by {
            lemma_arrivals_eq_residues(steps, i, m);
        }
    } else {
        law_weighted_pick_share(steps, i, (k - 1) as nat);
        lemma_arrivals_front(steps, i, (k - 1) as nat, t);
        law_weighted_pick_periodic(steps, (k - 1) as nat);
        assert((k - 1 + t) as nat == (k + t - 1) as nat);
    }
}

/// Below the total weight, arrival numbers are their own residues.
proof fn lemma_arrivals_eq_residues(steps: Seq<Step>, i: int, m: nat)
    requires
        steps.len() > 0,
        m <= total_weight_of(steps),
    ensures
        arrivals_picking(steps, i, 0, m) == residues_picking(steps, i, m),
    decreases m,
{
    if m > 0 {
        lemma_weight_sum_positive(steps);
        lemma_arrivals_eq_residues(steps, i, (m - 1) as nat);
        vstd::arithmetic::div_mod::lemma_small_mod((m - 1) as nat, total_weight_of(steps));
    }
}

} // verus!
