//! Breaking-point (knee) selection over windowed run metrics.
//!
//! Each ~100ms window of a run is first reduced to a handful of threshold
//! signals measured against the service floor (the error rate crossing 1%, p99
//! detaching from the floor, and so on). This module decides, from those
//! signals alone, which window tripped the break and which earlier window is
//! reported as the last safe operating point.
use vstd::prelude::*;

verus! {

/// Need ~1s of windowed data before claiming a knee (100ms snapshots).
pub const MIN_WINDOWS: usize = 10;

/// Consecutive latency-break windows required before a gradual climb counts.
pub const SUSTAINED_LAT_WINDOWS: usize = 3;

/// The threshold signals of one window.
#[derive(Debug, Clone, Copy, PartialEq, Eq, Structural)]
pub struct WindowSignal {
    /// The window's error rate is at or above the 1% break threshold.
    pub error_break: bool,
    /// p99 is at least 3× the service floor and at least 20ms above it.
    pub latency_break: bool,
    /// Low errors, p99 near the floor and throughput keeping up with the target.
    pub healthy: bool,
    /// p99 more than 1.5× the previous window's p99.
    pub jumped: bool,
    /// Throughput below 85% of the intended send rate.
    pub collapsed: bool,
}

/// A window with an error break is never healthy.
pub open spec fn coherent(w: WindowSignal) -> bool {
    w.healthy ==> !w.error_break
}

/// The signals of one window from its threshold tests: a window is healthy
/// when its error rate is below the break threshold, its p99 stays near the
/// floor and its throughput keeps up with the target.
pub fn window_signal(
    error_break: bool,
    latency_break: bool,
    near_floor: bool,
    keeping_up: bool,
    jumped: bool,
    collapsed: bool,
) -> (w: WindowSignal)
    ensures
        w == (WindowSignal {
            error_break,
            latency_break,
            healthy: !error_break && near_floor && keeping_up,
            jumped,
            collapsed,
        }),
        coherent(w),
{
    WindowSignal {
        error_break,
        latency_break,
        healthy: !error_break && near_floor && keeping_up,
        jumped,
        collapsed,
    }
}

/// What tripped the knee.
#[derive(Debug, Clone, Copy, PartialEq, Eq, Structural)]
pub enum KneeCause {
    /// The error rate crossed the threshold.
    ErrorRate,
    /// p99 detached from the floor while throughput fell behind the target.
    ThroughputCollapse,
    /// p99 detached from the floor.
    LatencyRise,
}

/// The window that tripped detection and the window reported as the knee.
#[derive(Debug, Clone, Copy, PartialEq, Eq, Structural)]
pub struct KneeChoice {
    /// Index of the window where quality degraded.
    pub trigger: usize,
    /// Index of the last healthy window before it: the reported knee.
    pub safe: usize,
    pub cause: KneeCause,
}

/// Length of the warm-up prefix skipped before scanning: `(n / 10).clamp(3, 8)`.
pub open spec fn warmup(n: int) -> int {
    if n / 10 < 3 {
        3
    } else if n / 10 > 8 {
        8
    } else {
        n / 10
    }
}

/// Number of consecutive latency-break windows ending at `i` (inclusive).
pub open spec fn latency_run(s: Seq<WindowSignal>, i: int) -> nat
    decreases i + 1,
{
    if i < 0 || i >= s.len() || !s[i].latency_break {
        0
    } else {
        1 + latency_run(s, i - 1)
    }
}

/// The window after `i` is also a latency break.
pub open spec fn next_hot(s: Seq<WindowSignal>, i: int) -> bool {
    i + 1 < s.len() && s[i + 1].latency_break
}

/// Window `i` trips detection: an error break, or a latency break that is
/// sustained, collapsed, or a jump that does not immediately recover.
pub open spec fn fires(s: Seq<WindowSignal>, i: int) -> bool {
    let w = s[i];
    let sustained = latency_run(s, i) >= SUSTAINED_LAT_WINDOWS;
    if w.error_break {
        true
    } else {
        &&& w.latency_break
        &&& (w.jumped || w.collapsed || sustained)
        &&& !(w.jumped && !w.collapsed && !sustained && !next_hot(s, i))
    }
}

/// Index of the last healthy window strictly before `i`, or -1.
pub open spec fn last_healthy_before(s: Seq<WindowSignal>, i: int) -> int
    decreases i,
{
    if i <= 0 || i > s.len() {
        -1
    } else if s[i - 1].healthy {
        i - 1
    } else {
        last_healthy_before(s, i - 1)
    }
}

/// Window `i` trips detection and has a healthy window to report.
pub open spec fn knee_at(s: Seq<WindowSignal>, i: int) -> bool {
    fires(s, i) && last_healthy_before(s, i) >= 0
}

/// The first index at or after `i` where a knee is found.
pub open spec fn first_knee_from(s: Seq<WindowSignal>, i: int) -> Option<int>
    decreases s.len() - i,
{
    if i < 0 || i >= s.len() {
        None
    } else if knee_at(s, i) {
        Some(i)
    } else {
        first_knee_from(s, i + 1)
    }
}

/// The window at which the scan stops, if any.
pub open spec fn knee_trigger(s: Seq<WindowSignal>) -> Option<int> {
    if s.len() < MIN_WINDOWS {
        None
    } else {
        first_knee_from(s, warmup(s.len() as int))
    }
}

/// The cause reported for a knee tripped by window `w`.
pub open spec fn cause_of(w: WindowSignal) -> KneeCause {
    if w.error_break {
        KneeCause::ErrorRate
    } else if w.collapsed {
        KneeCause::ThroughputCollapse
    } else {
        KneeCause::LatencyRise
    }
}

/// `(n / 10).clamp(3, 8)`.
pub fn warmup_len(n: usize) -> (r: usize)
    ensures
        r == warmup(n as int),
{
    let d = n / 10;
    if d < 3 {
        3
    } else if d > 8 {
        8
    } else {
        d
    }
}

/// Count the consecutive latency-break windows ending at `i`.
fn sustained_run(s: &[WindowSignal], i: usize) -> (n: usize)
    requires
        i < s@.len(),
    ensures
        n == latency_run(s@, i as int),
{
    let len = s.len();
    let mut n: usize = 0;
    let mut j: usize = i + 1;
    while j > 0 && s[j - 1].latency_break
        invariant
            j <= i + 1,
            i < s@.len(),
            n == i + 1 - j,
            latency_run(s@, i as int) == n + latency_run(s@, j - 1),
        decreases j,
    {
        j = j - 1;
        n = n + 1;
    }
    n
}

/// The last healthy window strictly before `i`.
fn find_last_healthy(s: &[WindowSignal], i: usize) -> (r: Option<usize>)
    requires
        i <= s@.len(),
    ensures
        r matches Some(j) ==> j as int == last_healthy_before(s@, i as int),
        r is None ==> last_healthy_before(s@, i as int) == -1,
{
    let mut j: usize = i;
    while j > 0
        invariant
            j <= i <= s@.len(),
            last_healthy_before(s@, i as int) == last_healthy_before(s@, j as int),
        decreases j,
    {
        if s[j - 1].healthy {
            return Some(j - 1);
        }
        j = j - 1;
    }
    None
}

/// A found healthy window lies before `i`, is healthy, and no later window before `i` is.
pub proof fn lemma_last_healthy(s: Seq<WindowSignal>, i: int)
    requires
        0 <= i <= s.len(),
    ensures
        last_healthy_before(s, i) >= 0 ==> {
            let j = last_healthy_before(s, i);
            &&& j < i
            &&& s[j].healthy
            &&& forall|k: int| j < k < i ==> !(#[trigger] s[k]).healthy
        },
        last_healthy_before(s, i) < 0 ==> last_healthy_before(s, i) == -1 && forall|k: int|
            0 <= k < i ==> !(#[trigger] s[k]).healthy,
    decreases i,
{
    if i > 0 {
        lemma_last_healthy(s, i - 1);
    }
}

/// Choose the knee from per-window signals.
///
/// Scanning left to right after the warm-up prefix, the first window that
/// trips detection and has a healthy window before it decides the knee; the
/// knee is that last healthy window. Fewer than [`MIN_WINDOWS`] windows never
/// yield a knee.
pub fn select_knee(s: &[WindowSignal]) -> (r: Option<KneeChoice>)
    ensures
        r is None <==> knee_trigger(s@) is None,
        r matches Some(c) ==> {
            &&& knee_trigger(s@) == Some(c.trigger as int)
            &&& c.safe as int == last_healthy_before(s@, c.trigger as int)
            &&& c.safe < c.trigger < s@.len()
            &&& s@[c.safe as int].healthy
            &&& forall|k: int| c.safe < k < c.trigger ==> !(#[trigger] s@[k]).healthy
            &&& c.cause == cause_of(s@[c.trigger as int])
            &&& s@[c.trigger as int].error_break <==> c.cause == KneeCause::ErrorRate
            &&& c.cause == KneeCause::ThroughputCollapse ==> s@[c.trigger as int].latency_break
                && s@[c.trigger as int].collapsed
            &&& c.cause == KneeCause::LatencyRise ==> s@[c.trigger as int].latency_break
                && !s@[c.trigger as int].collapsed
        },
{
    let n = s.len();
    if n < MIN_WINDOWS {
        return None;
    }
    let start = warmup_len(n);
    let mut i = start;
    while i < n
        invariant
            n == s@.len(),
            n >= MIN_WINDOWS,
            start == warmup(n as int),
            start <= i <= n,
            knee_trigger(s@) == first_knee_from(s@, i as int),
        decreases n - i,
    {
        let w = s[i];
        let fire = if w.error_break {
            true
        } else if !w.latency_break {
            false
        } else {
            let sustained = sustained_run(s, i) >= SUSTAINED_LAT_WINDOWS;
            if !(w.jumped || w.collapsed || sustained) {
                false
            } else if w.jumped && !w.collapsed && !sustained {
                i + 1 < n && s[i + 1].latency_break
            } else {
                true
            }
        };
        if fire {
            if let Some(safe) = find_last_healthy(s, i) {
                proof {
                    lemma_last_healthy(s@, i as int);
                }
                let cause = if w.error_break {
                    KneeCause::ErrorRate
                } else if w.collapsed {
                    KneeCause::ThroughputCollapse
                } else {
                    KneeCause::LatencyRise
                };
                proof {
                    law_knee_cause(s@);
                }
                return Some(KneeChoice { trigger: i, safe, cause });
            }
        }
        i = i + 1;
    }
    None
}

/// Law: the cause of a knee names what its trigger window broke on. An error
/// break is always reported as the error rate, whatever else the window shows;
/// a throughput collapse is reported only for a latency break that is not an
/// error break and whose throughput fell behind; a latency rise only for a
/// latency break with neither.
pub proof fn law_knee_cause(s: Seq<WindowSignal>)
    ensures
        knee_trigger(s) matches Some(t) ==> {
            let w = s[t];
            &&& w.error_break ==> cause_of(w) == KneeCause::ErrorRate
            &&& cause_of(w) == KneeCause::ErrorRate ==> w.error_break
            &&& cause_of(w) == KneeCause::ThroughputCollapse ==> !w.error_break && w.latency_break
                && w.collapsed
            &&& cause_of(w) == KneeCause::LatencyRise ==> !w.error_break && w.latency_break
                && !w.collapsed
        },
{
    if s.len() >= MIN_WINDOWS {
        lemma_first_knee_fires(s, warmup(s.len() as int));
    }
}

/// The knee found from `i` on is a window that fires.
proof fn lemma_first_knee_fires(s: Seq<WindowSignal>, i: int)
    ensures
        first_knee_from(s, i) matches Some(t) ==> 0 <= t < s.len() && fires(s, t),
    decreases s.len() - i,
{
    if 0 <= i < s.len() && !knee_at(s, i) {
        lemma_first_knee_fires(s, i + 1);
    }
}

/// Law: a run with no healthy window (unreachable host, rejected auth) has no knee.
pub proof fn law_no_healthy_window_no_knee(s: Seq<WindowSignal>)
    requires
        forall|k: int| 0 <= k < s.len() ==> !(#[trigger] s[k]).healthy,
    ensures
        knee_trigger(s) is None,
{
    if s.len() >= MIN_WINDOWS {
        lemma_no_knee_from(s, warmup(s.len() as int));
    }
}

/// Law: a run where every window is an error break (every request failing
/// against a closed port, say) has no knee: such a window is never healthy.
pub proof fn law_all_error_windows_no_knee(s: Seq<WindowSignal>)
    requires
        forall|k: int| 0 <= k < s.len() ==> coherent(#[trigger] s[k]) && s[k].error_break,
    ensures
        knee_trigger(s) is None,
{
    law_no_healthy_window_no_knee(s);
}

proof fn lemma_no_knee_from(s: Seq<WindowSignal>, i: int)
    requires
        0 <= i,
        forall|k: int| 0 <= k < s.len() ==> !(#[trigger] s[k]).healthy,
    ensures
        first_knee_from(s, i) is None,
    decreases s.len() - i,
{
    if i < s.len() {
        lemma_last_healthy(s, i);
        lemma_no_knee_from(s, i + 1);
    }
}

/// Law: a single latency jump that recovers in the next window, without a
/// throughput collapse or a sustained climb, never trips detection.
pub proof fn law_lone_jump_is_ignored(s: Seq<WindowSignal>, i: int)
    requires
        0 <= i < s.len(),
        !s[i].error_break,
        !s[i].collapsed,
        latency_run(s, i) < SUSTAINED_LAT_WINDOWS,
        !next_hot(s, i),
    ensures
        !fires(s, i),
{
}

/// Law: no window before the warm-up prefix ends is ever the trigger, and the
/// reported knee is always an earlier, healthy window.
pub proof fn law_knee_after_warmup(s: Seq<WindowSignal>)
    requires
        knee_trigger(s) is Some,
    ensures
        warmup(s.len() as int) <= knee_trigger(s)->0 < s.len(),
        0 <= last_healthy_before(s, knee_trigger(s)->0) < knee_trigger(s)->0,
        s[last_healthy_before(s, knee_trigger(s)->0)].healthy,
{
    lemma_first_knee_bounds(s, warmup(s.len() as int));
    lemma_last_healthy(s, knee_trigger(s)->0);
}

proof fn lemma_first_knee_bounds(s: Seq<WindowSignal>, i: int)
    requires
        0 <= i,
    ensures
        first_knee_from(s, i) matches Some(k) ==> i <= k < s.len() && knee_at(s, k),
    decreases s.len() - i,
{
    if i < s.len() && !knee_at(s, i) {
        lemma_first_knee_bounds(s, i + 1);
    }
}

} // verus!
