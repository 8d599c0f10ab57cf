use gust_core::compare::{verdict_for, Direction, Verdict};
use gust_core::diagnosis::{
    cause_paragraph, dead_target_diagnosis, diagnosis_cause, fixed_headline, insufficient_data_diagnosis, Cause,
    PostKneeSignal,
};
use gust_core::knee::{select_knee, warmup_len, window_signal, KneeCause, WindowSignal};
use gust_core::slo::first_sustained_breach;

fn healthy() -> WindowSignal {
    WindowSignal { error_break: false, latency_break: false, healthy: true, jumped: false, collapsed: false }
}

fn hot() -> WindowSignal {
    WindowSignal { error_break: false, latency_break: true, healthy: false, jumped: false, collapsed: false }
}

fn errors() -> WindowSignal {
    WindowSignal { error_break: true, latency_break: false, healthy: false, jumped: false, collapsed: false }
}

#[test]
fn warmup_is_a_tenth_clamped_to_three_and_eight() {
    assert_eq!(warmup_len(0), 3);
    assert_eq!(warmup_len(39), 3);
    assert_eq!(warmup_len(50), 5);
    assert_eq!(warmup_len(89), 8);
    assert_eq!(warmup_len(1000), 8);
}

#[test]
fn knee_too_short_has_no_knee() {
    let mut s = vec![healthy(); 9];
    s[6] = errors();
    assert!(select_knee(&s).is_none());
}

#[test]
fn error_break_reports_last_healthy_window() {
    let mut s = vec![healthy(); 20];
    s[12] = hot();
    s[13] = errors();
    let k = select_knee(&s).unwrap();
    assert_eq!(k.trigger, 13);
    assert_eq!(k.safe, 11);
    assert_eq!(k.cause, KneeCause::ErrorRate);
}

#[test]
fn sustained_latency_break_is_a_knee() {
    let mut s = vec![healthy(); 20];
    for w in s.iter_mut().skip(10) {
        *w = hot();
    }
    let k = select_knee(&s).unwrap();
    assert_eq!(k.trigger, 12);
    assert_eq!(k.safe, 9);
    assert_eq!(k.cause, KneeCause::LatencyRise);
}

#[test]
fn lone_jump_that_recovers_is_ignored() {
    let mut s = vec![healthy(); 20];
    s[10] = WindowSignal { jumped: true, ..hot() };
    assert!(select_knee(&s).is_none());
    s[11] = hot();
    let k = select_knee(&s).unwrap();
    assert_eq!(k.trigger, 10);
    assert_eq!(k.safe, 9);
}

#[test]
fn collapse_is_reported_as_throughput() {
    let mut s = vec![healthy(); 20];
    s[15] = WindowSignal { collapsed: true, ..hot() };
    let k = select_knee(&s).unwrap();
    assert_eq!((k.trigger, k.safe, k.cause), (15, 14, KneeCause::ThroughputCollapse));
}

#[test]
fn no_healthy_window_means_no_knee() {
    let s = vec![errors(); 30];
    assert!(select_knee(&s).is_none());
}

#[test]
fn breaks_inside_the_warmup_are_skipped() {
    let mut s = vec![healthy(); 20];
    s[0] = errors();
    s[1] = errors();
    assert!(select_knee(&s).is_none());
}

#[test]
fn slo_breach_must_be_sustained() {
    let mut m = vec![true; 20];
    m[8] = false;
    assert_eq!(first_sustained_breach(&m), None);
    m[12] = false;
    m[13] = false;
    m[14] = false;
    assert_eq!(first_sustained_breach(&m), Some(12));
}

#[test]
fn slo_breach_at_the_tail_counts_the_remaining_windows() {
    let mut m = vec![true; 20];
    m[18] = false;
    m[19] = false;
    assert_eq!(first_sustained_breach(&m), Some(18));
    let short = vec![false; 2];
    assert_eq!(first_sustained_breach(&short), None);
}

#[test]
fn verdicts_roll_up_directions() {
    let (i, r, e) = (Direction::Improved, Direction::Regressed, Direction::Equivalent);
    assert_eq!(verdict_for(&[i, e]), Verdict::Improved);
    assert_eq!(verdict_for(&[r, e]), Verdict::Regressed);
    assert_eq!(verdict_for(&[i, r]), Verdict::Mixed);
    assert_eq!(verdict_for(&[e, e]), Verdict::Equivalent);
    assert_eq!(verdict_for(&[]), Verdict::Equivalent);
    assert!(Verdict::Mixed.is_failure() && Verdict::Regressed.is_failure());
    assert!(!Verdict::Improved.is_failure() && !Verdict::Equivalent.is_failure());
    assert_eq!(Verdict::Improved.label(), "IMPROVED");
    assert_eq!(Verdict::Mixed.label(), "MIXED");
    assert_eq!(Direction::Regressed.as_str(), "regressed");
    assert_eq!(Direction::Equivalent.as_str(), "equivalent");
}

#[test]
fn diagnosis_names_the_failure_mode() {
    assert_eq!(diagnosis_cause(0, 0, 50, None, None), Cause::InsufficientData);
    assert_eq!(diagnosis_cause(100, 90, 9, None, None), Cause::InsufficientData);
    assert_eq!(diagnosis_cause(100, 0, 50, Some("error rate 5.0% ≥ 1%"), None), Cause::DeadTarget);
    assert_eq!(diagnosis_cause(100, 90, 50, None, None), Cause::Healthy);
    assert_eq!(diagnosis_cause(100, 90, 50, Some("Error Rate 5.0% ≥ 1%"), None), Cause::ErrorSpike);
    assert_eq!(
        diagnosis_cause(
            100,
            90,
            50,
            Some("p99 39.8ms (40× service floor) and throughput 76% of target"),
            None
        ),
        Cause::ThroughputCollapse
    );
    let reason = Some("p99 49.3ms rose to 4× service floor (11.2ms)");
    assert_eq!(diagnosis_cause(100, 90, 50, reason, None), Cause::LatencySaturation);
    let post = |error_break, collapsed| Some(PostKneeSignal { error_break, collapsed });
    assert_eq!(diagnosis_cause(100, 90, 50, reason, post(true, true)), Cause::ErrorSpike);
    assert_eq!(diagnosis_cause(100, 90, 50, reason, post(false, true)), Cause::ThroughputCollapse);
    assert_eq!(diagnosis_cause(100, 90, 50, reason, post(false, false)), Cause::LatencySaturation);
}

#[test]
fn diagnosis_texts() {
    assert_eq!(
        fixed_headline(Cause::DeadTarget),
        Some("No capacity measured — the target never served a request.")
    );
    assert!(fixed_headline(Cause::Healthy).unwrap().contains("no clear breaking point"));
    assert_eq!(fixed_headline(Cause::ErrorSpike), None);
    assert!(cause_paragraph(Cause::LatencySaturation).unwrap().contains("queueing"));
    assert_eq!(cause_paragraph(Cause::DeadTarget), None);
    assert_eq!(Cause::DeadTarget.as_str(), "dead_target");
    assert_eq!(Cause::ThroughputCollapse.label(), "throughput collapse");
}

#[test]
fn error_windows_are_never_healthy_so_a_dead_run_has_no_knee() {
    let w = window_signal(true, false, true, true, false, false);
    assert!(w.error_break && !w.healthy);
    let ok = window_signal(false, false, true, true, false, false);
    assert!(ok.healthy);
    assert!(!window_signal(false, false, false, true, false, false).healthy);
    assert!(!window_signal(false, false, true, false, false, false).healthy);
    let dead = vec![window_signal(true, false, true, true, false, false); 50];
    assert!(select_knee(&dead).is_none());
}

#[test]
fn too_little_data_and_dead_target_texts() {
    let d = insufficient_data_diagnosis(7, 3);
    assert_eq!(d.cause, Cause::InsufficientData);
    assert_eq!(d.headline, "Not enough data to diagnose this run.");
    assert_eq!(d.evidence, vec!["7 samples across 3 windows — need a longer ramp or higher rate".to_string()]);
    assert!(d.narrative.starts_with("Gust needs roughly a second of windowed metrics"));

    let dead = dead_target_diagnosis(50, Some("could not connect: connection refused"));
    assert_eq!(dead.cause, Cause::DeadTarget);
    assert!(dead.headline.contains("never served"));
    assert_eq!(dead.evidence[0], "0 / 50 successes");
    assert_eq!(dead.evidence[1], "first failure: could not connect: connection refused");
    assert!(dead.narrative.starts_with("Every request failed (could not connect: connection refused)."));
    let quiet = dead_target_diagnosis(3, None);
    assert_eq!(quiet.evidence[1], "first failure: every request failed");
}
