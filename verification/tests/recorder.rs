use gust_core::recorder::{Outcome, Recorder};
use gust_core::steps::MultiRecorder;

fn ms(n: u64) -> u64 {
    n * 1000
}

fn p(h: &gust_core::recorder::LatencyHistogram, q: f64) -> f64 {
    h.hist.value_at_quantile(q) as f64 / 1000.0
}

#[test]
fn counts_outcomes() {
    let mut r = Recorder::new(None).unwrap();
    r.record(ms(5), Outcome::Success);
    r.record(ms(5), Outcome::Failure);
    assert_eq!(r.total(), 2);
    assert_eq!(r.success(), 1);
    assert_eq!(r.failure(), 1);
}

#[test]
fn window_tracks_error_rate() {
    let mut r = Recorder::new(None).unwrap();
    r.record(ms(1), Outcome::Success);
    r.record(ms(1), Outcome::Failure);
    let w = r.take_window().unwrap();
    assert_eq!(w.success, 1);
    assert_eq!(w.failure, 1);
    let error_rate = w.failure as f64 / (w.success + w.failure) as f64;
    assert!((error_rate - 0.5).abs() < 1e-9);
    assert!(r.take_window().is_none());
}

#[test]
fn correction_inflates_tail_after_a_stall() {
    let interval = ms(1);
    let mut corrected = Recorder::new(Some(interval)).unwrap();
    let mut naive = Recorder::new(None).unwrap();
    for _ in 0..1000 {
        corrected.record(ms(1), Outcome::Success);
        naive.record(ms(1), Outcome::Success);
    }
    corrected.record(ms(500), Outcome::Success);
    naive.record(ms(500), Outcome::Success);

    let naive_p99 = p(naive.raw(), 0.99);
    let corrected_p99 = p(corrected.corrected(), 0.99);
    assert!(
        corrected_p99 > naive_p99 * 10.0,
        "corrected p99 ({corrected_p99}ms) should dwarf naive p99 ({naive_p99}ms)"
    );
}

#[test]
fn per_sample_interval_overrides_default() {
    let mut r = Recorder::new(Some(ms(100))).unwrap();
    r.record_with_interval(ms(50), Outcome::Success, ms(1));
    assert!(p(r.corrected(), 0.99) >= p(r.raw(), 0.99));
    assert_eq!(r.corrected().hist.len(), 50);
    assert_eq!(r.raw().hist.len(), 1);
}

#[test]
fn correction_backfills_one_sample_per_missed_interval() {
    let mut r = Recorder::new(Some(ms(10))).unwrap();
    r.record(ms(35), Outcome::Success);
    // 35ms, then 25ms and 15ms for the two sends that were due while blocked.
    assert_eq!(r.corrected().hist.len(), 3);
    assert_eq!(r.raw().hist.len(), 1);
    r.record(ms(10), Outcome::Success);
    assert_eq!(r.corrected().hist.len(), 4);
}

#[test]
fn no_interval_means_no_correction() {
    let mut r = Recorder::new(None).unwrap();
    r.record(ms(500), Outcome::Success);
    assert_eq!(r.corrected().hist.len(), 1);
    r.set_expected_interval(Some(ms(100)));
    r.record(ms(500), Outcome::Success);
    assert_eq!(r.corrected().hist.len(), 1 + 5);
    r.record_with_interval(ms(500), Outcome::Success, 0);
    assert_eq!(r.corrected().hist.len(), 1 + 5 + 1);
}

#[test]
fn latency_is_clamped_into_range() {
    let mut r = Recorder::new(None).unwrap();
    r.record(0, Outcome::Success);
    r.record(3_600_000_000, Outcome::Failure);
    assert_eq!(r.raw().hist.min(), 1);
    assert!(r.raw().hist.max() >= 60_000_000);
    assert!(r.raw().hist.equivalent(r.raw().hist.max(), 60_000_000));
}

#[test]
fn window_resets_but_totals_keep_counting() {
    let mut r = Recorder::new(None).unwrap();
    r.record(ms(2), Outcome::Success);
    let w = r.take_window().unwrap();
    assert_eq!(w.histogram.hist.len(), 1);
    r.record(ms(2), Outcome::Failure);
    r.record(ms(2), Outcome::Failure);
    let w = r.take_window().unwrap();
    assert_eq!((w.success, w.failure), (0, 2));
    assert_eq!(w.histogram.hist.len(), 2);
    assert_eq!(r.total(), 3);
}

fn step_total(m: &MultiRecorder, name: &str) -> Option<u64> {
    (0..m.step_count()).map(|i| m.step(i)).find(|(n, _)| n.as_str() == name).map(|(_, r)| r.total())
}

fn step_p50(m: &MultiRecorder, name: &str) -> f64 {
    let i = (0..m.step_count()).find(|&i| m.step(i).0 == name).unwrap();
    p(m.step(i).1.raw(), 0.5)
}

#[test]
fn overall_and_steps_accumulate_independently() {
    let mut m = MultiRecorder::new(None).unwrap();
    m.record_with_interval(ms(10), Outcome::Success, ms(5), Some("fast"));
    m.record_with_interval(ms(100), Outcome::Success, ms(5), Some("slow"));
    m.record_with_interval(ms(100), Outcome::Success, ms(5), Some("slow"));

    assert_eq!(m.overall().total(), 3);
    assert_eq!(m.step_count(), 2);
    assert_eq!(step_total(&m, "slow"), Some(2));
    assert_eq!(step_total(&m, "fast"), Some(1));
    assert!(step_p50(&m, "slow") > step_p50(&m, "fast"));
}

#[test]
fn empty_step_name_skips_breakdown() {
    let mut m = MultiRecorder::new(None).unwrap();
    m.record_with_interval(ms(5), Outcome::Success, ms(5), Some(""));
    m.record_with_interval(ms(5), Outcome::Success, ms(5), None);
    assert_eq!(m.step_count(), 0);
    assert_eq!(m.overall().total(), 2);
}

#[test]
fn identifies_expensive_endpoint() {
    let mut m = MultiRecorder::new(Some(ms(10))).unwrap();
    for _ in 0..60 {
        m.record_with_interval(ms(10), Outcome::Success, ms(10), Some("items"));
    }
    for _ in 0..30 {
        m.record_with_interval(ms(30), Outcome::Success, ms(10), Some("search"));
    }
    for _ in 0..10 {
        m.record_with_interval(ms(50), Outcome::Success, ms(10), Some("checkout"));
    }
    assert!(step_p50(&m, "checkout") > step_p50(&m, "search"));
    assert!(step_p50(&m, "search") > step_p50(&m, "items"));
}

#[test]
fn steps_are_kept_in_name_order() {
    let mut m = MultiRecorder::new(None).unwrap();
    for name in ["search", "checkout", "items", "checkout", "Zeta"] {
        m.record_with_interval(ms(1), Outcome::Success, ms(1), Some(name));
    }
    let names: Vec<String> = (0..m.step_count()).map(|i| m.step(i).0.clone()).collect();
    assert_eq!(names, vec!["Zeta", "checkout", "items", "search"]);
    assert_eq!(step_total(&m, "checkout"), Some(2));
    assert_eq!(m.overall().total(), 5);
}

#[test]
fn take_window_reads_the_overall_window() {
    let mut m = MultiRecorder::new(None).unwrap();
    assert!(m.take_window().is_none());
    m.record_with_interval(ms(3), Outcome::Failure, ms(1), Some("a"));
    let w = m.take_window().unwrap();
    assert_eq!((w.success, w.failure), (0, 1));
    assert!(m.take_window().is_none());
    assert_eq!(step_total(&m, "a"), Some(1));
}
