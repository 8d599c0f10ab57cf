//! Plain-English auto-diagnosis of a finished run: naming the failure mode.
use vstd::prelude::*;

use crate::text::{ascii_lower, chars_of, contains_chars, contains_seq, dec, owned, push_dec, push_str, to_lower};

verus! {

/// Need ~1s of windowed data (100ms snapshots) before naming a failure mode.
pub const MIN_DIAGNOSIS_WINDOWS: usize = 10;

/// Primary failure mode attributed to the run.
#[derive(Debug, Clone, Copy, PartialEq, Eq, Structural)]
pub enum Cause {
    /// Every request failed — nothing was served; no capacity story.
    DeadTarget,
    /// p99 climbed while the system was still answering (queueing / saturation).
    LatencySaturation,
    /// Offered load outran completions (throughput flattened under the target).
    ThroughputCollapse,
    /// Errors crossed the break threshold first.
    ErrorSpike,
    /// No clear break; the run stayed healthy under the loads exercised.
    Healthy,
    /// Not enough windowed data to say anything useful.
    InsufficientData,
}

impl Cause {
    /// Snake-case identifier used in JSON artifacts.
    pub fn as_str(self) -> (s: &'static str)
        ensures
            s@ == match self {
                Cause::DeadTarget => "dead_target"@,
                Cause::LatencySaturation => "latency_saturation"@,
                Cause::ThroughputCollapse => "throughput_collapse"@,
                Cause::ErrorSpike => "error_spike"@,
                Cause::Healthy => "healthy"@,
                Cause::InsufficientData => "insufficient_data"@,
            },
    {
        match self {
            Cause::DeadTarget => "dead_target",
            Cause::LatencySaturation => "latency_saturation",
            Cause::ThroughputCollapse => "throughput_collapse",
            Cause::ErrorSpike => "error_spike",
            Cause::Healthy => "healthy",
            Cause::InsufficientData => "insufficient_data",
        }
    }

    /// Human-readable label.
    pub fn label(self) -> (s: &'static str)
        ensures
            s@ == match self {
                Cause::DeadTarget => "dead target"@,
                Cause::LatencySaturation => "latency saturation"@,
                Cause::ThroughputCollapse => "throughput collapse"@,
                Cause::ErrorSpike => "error spike"@,
                Cause::Healthy => "healthy"@,
                Cause::InsufficientData => "insufficient data"@,
            },
    {
        match self {
            Cause::DeadTarget => "dead target",
            Cause::LatencySaturation => "latency saturation",
            Cause::ThroughputCollapse => "throughput collapse",
            Cause::ErrorSpike => "error spike",
            Cause::Healthy => "healthy",
            Cause::InsufficientData => "insufficient data",
        }
    }
}

/// Written diagnosis of a finished run.
#[derive(Debug, Clone, PartialEq)]
pub struct Diagnosis {
    pub cause: Cause,
    /// One-line headline for CLI / HTML banners.
    pub headline: String,
    /// Short supporting bullets.
    pub evidence: Vec<String>,
    /// Full narrative paragraph.
    pub narrative: String,
}

/// The threshold signals of the first window more than 0.2s after the knee.
#[derive(Debug, Clone, Copy, PartialEq, Eq, Structural)]
pub struct PostKneeSignal {
    /// Error rate at or above the 1% break threshold.
    pub error_break: bool,
    /// Throughput below 85% of the intended send rate.
    pub collapsed: bool,
}

/// The failure mode of a run, from its counts, the number of windows, the
/// knee's reason (when a knee was found) and the window after the knee.
pub open spec fn cause_spec(
    total: u64,
    success: u64,
    windows: nat,
    knee_reason: Option<Seq<char>>,
    post: Option<PostKneeSignal>,
) -> Cause {
    if total == 0 || windows < MIN_DIAGNOSIS_WINDOWS {
        Cause::InsufficientData
    } else if success == 0 {
        Cause::DeadTarget
    } else {
        match knee_reason {
            None => Cause::Healthy,
            Some(r) => {
                let lr = ascii_lower(r);
                if contains_seq(lr, "error rate"@) {
                    Cause::ErrorSpike
                } else if contains_seq(lr, "throughput"@) {
                    Cause::ThroughputCollapse
                } else {
                    match post {
                        Some(p) => if p.error_break {
                            Cause::ErrorSpike
                        } else if p.collapsed {
                            Cause::ThroughputCollapse
                        } else {
                            Cause::LatencySaturation
                        },
                        None => Cause::LatencySaturation,
                    }
                }
            },
        }
    }
}

/// The character view of an optional string slice.
pub open spec fn opt_str_view(o: Option<&str>) -> Option<Seq<char>> {
    match o {
        Some(s) => Some(s@),
        None => None,
    }
}

/// Name the run's failure mode.
///
/// Too little data (nothing recorded, or fewer than ten windows) says nothing;
/// a run with no success is a dead target; without a knee the run was healthy;
/// otherwise the knee's reason decides, confirmed by the window after the knee.
pub fn diagnosis_cause(
    total: u64,
    success: u64,
    windows: usize,
    knee_reason: Option<&str>,
    post: Option<PostKneeSignal>,
) -> (c: Cause)
    ensures
        c == cause_spec(total, success, windows as nat, opt_str_view(knee_reason), post),
        total == 0 || windows < MIN_DIAGNOSIS_WINDOWS ==> c == Cause::InsufficientData,
        total > 0 && windows >= MIN_DIAGNOSIS_WINDOWS && success == 0 ==> c == Cause::DeadTarget,
        total > 0 && success > 0 && windows >= MIN_DIAGNOSIS_WINDOWS ==> match knee_reason {
            Some(r) => {
                &&& contains_seq(ascii_lower(r@), "error rate"@) ==> c == Cause::ErrorSpike
                &&& !contains_seq(ascii_lower(r@), "error rate"@) && contains_seq(
                    ascii_lower(r@),
                    "throughput"@,
                ) ==> c == Cause::ThroughputCollapse
            },
            None => c == Cause::Healthy,
        },
{
    proof {
        if total > 0 && success > 0 && windows >= MIN_DIAGNOSIS_WINDOWS {
            if let Some(r) = knee_reason {
                law_knee_reason_decides(total, success, windows as nat, r@, post);
            }
        }
    }
    if total == 0 || windows < MIN_DIAGNOSIS_WINDOWS {
        return Cause::InsufficientData;
    }
    if success == 0 {
        return Cause::DeadTarget;
    }
    match knee_reason {
        None => Cause::Healthy,
        Some(r) => {
            let lr = to_lower(chars_of(r).as_slice());
            let err = chars_of("error rate");
            let thr = chars_of("throughput");
            if contains_chars(lr.as_slice(), err.as_slice()) {
                Cause::ErrorSpike
            } else if contains_chars(lr.as_slice(), thr.as_slice()) {
                Cause::ThroughputCollapse
            } else {
                match post {
                    Some(p) => if p.error_break {
                        Cause::ErrorSpike
                    } else if p.collapsed {
                        Cause::ThroughputCollapse
                    } else {
                        Cause::LatencySaturation
                    },
                    None => Cause::LatencySaturation,
                }
            }
        },
    }
}

/// Law: a run that recorded something over enough windows but never succeeded
/// is a dead target, whatever the knee says.
pub proof fn law_no_success_is_dead_target(
    total: u64,
    windows: nat,
    knee_reason: Option<Seq<char>>,
    post: Option<PostKneeSignal>,
)
    requires
        total > 0,
        windows >= MIN_DIAGNOSIS_WINDOWS,
    ensures
        cause_spec(total, 0, windows, knee_reason, post) == Cause::DeadTarget,
{
}

/// Law: a run with enough data, some successes and no knee is healthy.
pub proof fn law_no_knee_is_healthy(total: u64, success: u64, windows: nat, post: Option<PostKneeSignal>)
    requires
        total > 0,
        success > 0,
        windows >= MIN_DIAGNOSIS_WINDOWS,
    ensures
        cause_spec(total, success, windows, None, post) == Cause::Healthy,
{
}

/// Law: with enough data and some successes, a knee whose reason mentions the
/// error rate (in any case) is an error spike and one that mentions throughput
/// but not the error rate is a throughput collapse, whatever the window after
/// the knee shows; only a knee reason naming neither lets that window decide,
/// errors first, then a collapse, else latency saturation.
pub proof fn law_knee_reason_decides(
    total: u64,
    success: u64,
    windows: nat,
    r: Seq<char>,
    post: Option<PostKneeSignal>,
)
    requires
        total > 0,
        success > 0,
        windows >= MIN_DIAGNOSIS_WINDOWS,
    ensures
        contains_seq(ascii_lower(r), "error rate"@) ==> cause_spec(total, success, windows, Some(r), post)
            == Cause::ErrorSpike,
        !contains_seq(ascii_lower(r), "error rate"@) && contains_seq(ascii_lower(r), "throughput"@)
            ==> cause_spec(total, success, windows, Some(r), post) == Cause::ThroughputCollapse,
        !contains_seq(ascii_lower(r), "error rate"@) && !contains_seq(ascii_lower(r), "throughput"@)
            ==> cause_spec(total, success, windows, Some(r), post) == match post {
            Some(p) => if p.error_break {
                Cause::ErrorSpike
            } else if p.collapsed {
                Cause::ThroughputCollapse
            } else {
                Cause::LatencySaturation
            },
            None => Cause::LatencySaturation,
        },
{
}

/// The headline for causes whose wording carries no measurement.
pub open spec fn fixed_headline_spec(c: Cause) -> Option<Seq<char>> {
    match c {
        Cause::DeadTarget => Some("No capacity measured — the target never served a request."@),
        Cause::InsufficientData => Some("Not enough data to diagnose this run."@),
        Cause::Healthy => Some(
            "System held under the loads exercised — no clear breaking point."@,
        ),
        _ => None,
    }
}

/// The headline of a diagnosis whose cause carries no measurement; the other
/// headlines quote the knee load or the corrected p99.
pub fn fixed_headline(c: Cause) -> (h: Option<&'static str>)
    ensures
        opt_str_view(h) == fixed_headline_spec(c),
{
    match c {
        Cause::DeadTarget => Some("No capacity measured — the target never served a request."),
        Cause::InsufficientData => Some("Not enough data to diagnose this run."),
        Cause::Healthy => Some(
            "System held under the loads exercised — no clear breaking point.",
        ),
        _ => None,
    }
}

/// The evidence line of a run with too little data.
pub open spec fn insufficient_evidence(total: u64, windows: nat) -> Seq<char> {
    dec(total as nat) + " samples across "@ + dec(windows)
        + " windows — need a longer ramp or higher rate"@
}

/// What a run with too little data is told.
pub open spec fn insufficient_narrative() -> Seq<char> {
    "Gust needs roughly a second of windowed metrics before it can name a failure mode. Re-run with a longer duration or a steeper ramp."@
}

/// The diagnosis of a run with too little data: `total` samples across
/// `windows` windows.
pub fn insufficient_data_diagnosis(total: u64, windows: usize) -> (d: Diagnosis)
    ensures
        d.cause == Cause::InsufficientData,
        Some(d.headline@) == fixed_headline_spec(Cause::InsufficientData),
        d.evidence@.len() == 1,
        d.evidence@[0]@ == insufficient_evidence(total, windows as nat),
        d.narrative@ == insufficient_narrative(),
{
    let mut e = String::new();
    push_dec(&mut e, total);
    push_str(&mut e, " samples across ");
    push_dec(&mut e, windows as u64);
    push_str(&mut e, " windows — need a longer ramp or higher rate");
    let mut evidence: Vec<String> = Vec::new();
    evidence.push(e);
    Diagnosis {
        cause: Cause::InsufficientData,
        headline: owned("Not enough data to diagnose this run."),
        evidence,
        narrative: owned(
            "Gust needs roughly a second of windowed metrics before it can name a failure mode. Re-run with a longer duration or a steeper ramp.",
        ),
    }
}

/// The failure detail quoted for a dead target.
pub open spec fn dead_detail(failure_reason: Option<Seq<char>>) -> Seq<char> {
    match failure_reason {
        Some(r) => r,
        None => "every request failed"@,
    }
}

/// What a run whose every request failed is told.
pub open spec fn dead_narrative(detail: Seq<char>) -> Seq<char> {
    "Every request failed ("@ + detail
        + "). Latency numbers above do not reflect work the target did — check the URL, auth, and that the service is actually listening before trusting a knee or SLO."@
}

/// The diagnosis of a run where none of `total` requests succeeded, quoting
/// the first failure's reason when one was noted.
pub fn dead_target_diagnosis(total: u64, failure_reason: Option<&str>) -> (d: Diagnosis)
    ensures
        d.cause == Cause::DeadTarget,
        Some(d.headline@) == fixed_headline_spec(Cause::DeadTarget),
        d.evidence@.len() == 2,
        d.evidence@[0]@ == "0 / "@ + dec(total as nat) + " successes"@,
        d.evidence@[1]@ == "first failure: "@ + dead_detail(opt_str_view(failure_reason)),
        d.narrative@ == dead_narrative(dead_detail(opt_str_view(failure_reason))),
{
    let detail = match failure_reason {
        Some(r) => r,
        None => "every request failed",
    };
    let mut e0 = owned("0 / ");
    push_dec(&mut e0, total);
    push_str(&mut e0, " successes");
    let mut e1 = owned("first failure: ");
    push_str(&mut e1, detail);
    let mut n = owned("Every request failed (");
    push_str(&mut n, detail);
    push_str(
        &mut n,
        "). Latency numbers above do not reflect work the target did — check the URL, auth, and that the service is actually listening before trusting a knee or SLO.",
    );
    let mut evidence: Vec<String> = Vec::new();
    evidence.push(e0);
    evidence.push(e1);
    Diagnosis {
        cause: Cause::DeadTarget,
        headline: owned("No capacity measured — the target never served a request."),
        evidence,
        narrative: n,
    }
}

/// The opening paragraph of the narrative for each cause.
pub open spec fn cause_paragraph_spec(c: Cause) -> Option<Seq<char>> {
    match c {
        Cause::Healthy => Some(
            "Across this run Gust did not see a sustained error spike, latency hockey-stick, or throughput collapse. Treat the top rate reached as a lower bound on capacity — raise the ramp to find the real ceiling."@,
        ),
        Cause::ErrorSpike => Some(
            "The first clear break was a rising error rate. That usually means the target is rejecting work (timeouts, 5xx, connection resets) rather than just queueing it. Fix reliability before chasing latency."@,
        ),
        Cause::ThroughputCollapse => Some(
            "Offered load outran completions: throughput flattened while the intended send rate kept climbing. That is classic backpressure — a bounded pool, saturated CPU, or a downstream bottleneck that cannot absorb arrivals."@,
        ),
        Cause::LatencySaturation => Some(
            "Requests kept succeeding, but p99 climbed far above the service floor. That pattern is queueing: a worker/connection pool is busy, so arrivals wait. The knee marks the last load the system was still surviving."@,
        ),
        Cause::DeadTarget | Cause::InsufficientData => None,
    }
}

/// The opening paragraph of the narrative for `c`, if the cause has one.
pub fn cause_paragraph(c: Cause) -> (p: Option<&'static str>)
    ensures
        opt_str_view(p) == cause_paragraph_spec(c),
{
    match c {
        Cause::Healthy => Some(
            "Across this run Gust did not see a sustained error spike, latency hockey-stick, or throughput collapse. Treat the top rate reached as a lower bound on capacity — raise the ramp to find the real ceiling.",
        ),
        Cause::ErrorSpike => Some(
            "The first clear break was a rising error rate. That usually means the target is rejecting work (timeouts, 5xx, connection resets) rather than just queueing it. Fix reliability before chasing latency.",
        ),
        Cause::ThroughputCollapse => Some(
            "Offered load outran completions: throughput flattened while the intended send rate kept climbing. That is classic backpressure — a bounded pool, saturated CPU, or a downstream bottleneck that cannot absorb arrivals.",
        ),
        Cause::LatencySaturation => Some(
            "Requests kept succeeding, but p99 climbed far above the service floor. That pattern is queueing: a worker/connection pool is busy, so arrivals wait. The knee marks the last load the system was still surviving.",
        ),
        Cause::DeadTarget | Cause::InsufficientData => None,
    }
}

} // verus!
