//! Latency recording with coordinated-omission correction.
//!
//! When a target stalls, a naive load tester stops sending requests and never
//! records the latency those never-sent requests would have seen. The
//! recorder corrects for this with the interval at which requests were
//! *supposed* to be sent: a sample that took much longer than that interval
//! is backfilled with the samples of the requests that should have been sent
//! while it was blocked.
//!
//! Samples live in `hdrhistogram` histograms of microsecond values. Such a
//! histogram keeps a count per bucket of equivalent values, not the values
//! themselves, so a sample is modelled by the lowest value of its bucket. The
//! percentile read-out happens outside this module.
use vstd::prelude::*;
use vstd::multiset::Multiset;

use hdrhistogram::{CreationError, Histogram};

verus! {

/// The largest latency tracked: 60 seconds, in microseconds.
pub const MAX_LATENCY_US: u64 = 60_000_000;

/// Significant decimal digits kept by the histograms.
pub const SIGNIFICANT_DIGITS: u8 = 3;

#[verifier::external_type_specification]
#[verifier::external_body]
pub struct ExCreationError(CreationError);

/// A histogram of latencies in microseconds: an `hdrhistogram::Histogram<u64>`
/// whose contents are known only through the names below. The field is
/// public so that the floating-point percentile read-out, which stays outside
/// this library, can query it; that read-out only reads it.
#[verifier::external_body]
pub struct LatencyHistogram {
    pub hist: Histogram<u64>,
}

/// What a histogram holds: one element per recorded sample, the lowest value
/// of the bucket the sample was counted in.
pub uninterp spec fn hist_samples(h: LatencyHistogram) -> Multiset<u64>;

/// The highest value a histogram was made to track.
pub uninterp spec fn hist_high(h: LatencyHistogram) -> u64;

/// The significant decimal digits a histogram was made with.
pub uninterp spec fn hist_sigfig(h: LatencyHistogram) -> u8;

/// `Histogram::lowest_equivalent(value)` for a histogram made by
/// `new_with_max` (lowest discernible value 1) with `sigfig` significant
/// digits: the lowest value counted in the same bucket as `value`.
pub uninterp spec fn bucket_floor(sigfig: u8, value: u64) -> u64;

/// `Histogram::new_with_max(high, sigfig)`: an empty histogram tracking
/// values from 1 to `high` with `sigfig` significant digits. `new_with_bounds`
/// refuses a lowest value of 0 (here 1), `high < 2 * low`, `sigfig > 5`, a
/// unit and sub-bucket magnitude over 63 bits (at most 18 here) and a counts
/// length beyond `usize` (at most 65 * 2^17 entries here, computed in `u32`),
/// so with `high >= 2` and `sigfig <= 5` it succeeds on 32- and 64-bit
/// targets. On success nothing is recorded yet, `high` is the tracked maximum
/// and `sigfig` the precision.
#[verifier::external_body]
fn new_histogram(high: u64, sigfig: u8) -> (r: Result<LatencyHistogram, CreationError>)
    ensures
        high >= 2 && sigfig <= 5 ==> r is Ok,
        r matches Ok(h) ==> hist_samples(h) =~= Multiset::empty() && hist_high(h) == high
            && hist_sigfig(h) == sigfig,
{
    Histogram::new_with_max(high, sigfig).map(|hist| LatencyHistogram { hist })
}

/// `Histogram::record(value)` for a value within the tracked range: the crate
/// sized its counts through `high` when it was made, so the value has a slot
/// and the call cannot fail; with fewer than `u64::MAX` samples no count
/// saturates. One more count in the bucket of `value`.
#[verifier::external_body]
fn hist_record(h: &mut LatencyHistogram, value: u64)
    requires
        1 <= value <= hist_high(*old(h)),
        hist_samples(*old(h)).len() < u64::MAX,
    ensures
        hist_samples(*final(h)) =~= hist_samples(*old(h)).insert(
            bucket_floor(hist_sigfig(*old(h)), value),
        ),
        hist_high(*final(h)) == hist_high(*old(h)),
        hist_sigfig(*final(h)) == hist_sigfig(*old(h)),
    no_unwind
{
    h.hist.record(value).expect("value within the histogram's bounds")
}

/// The samples synthesized by `record_correct` below a value: one at
/// `m`, one at `m - interval`, … while still at least `interval`, each
/// counted in its bucket of a `sigfig`-digit histogram.
pub open spec fn missing_samples(sigfig: u8, m: int, interval: int) -> Multiset<u64>
    decreases m,
{
    if interval <= 0 || m < interval {
        Multiset::empty()
    } else {
        missing_samples(sigfig, m - interval, interval).insert(bucket_floor(sigfig, m as u64))
    }
}

/// Everything `record_correct(value, interval)` adds to a `sigfig`-digit
/// histogram: the sample itself and, when it took longer than the interval,
/// the requests that should have been sent while it was blocked.
pub open spec fn corrected_samples(sigfig: u8, value: u64, interval: u64) -> Multiset<u64> {
    if value > interval {
        Multiset::singleton(bucket_floor(sigfig, value)).add(
            missing_samples(sigfig, value - interval, interval as int),
        )
    } else {
        Multiset::singleton(bucket_floor(sigfig, value))
    }
}

/// `Histogram::record_correct(value, interval)` for a value within range and
/// a positive interval: records `value`, then `value - interval`,
/// `value - 2 * interval`, … down to no less than `interval`. Every one of
/// them is within range, so the call cannot fail, and the bound on the
/// sample count keeps every count from saturating.
#[verifier::external_body]
fn hist_record_correct(h: &mut LatencyHistogram, value: u64, interval: u64)
    requires
        1 <= value <= hist_high(*old(h)),
        interval > 0,
        hist_samples(*old(h)).len() + corrected_samples(hist_sigfig(*old(h)), value, interval).len()
            <= u64::MAX,
    ensures
        hist_samples(*final(h)) =~= hist_samples(*old(h)).add(
            corrected_samples(hist_sigfig(*old(h)), value, interval),
        ),
        hist_high(*final(h)) == hist_high(*old(h)),
        hist_sigfig(*final(h)) == hist_sigfig(*old(h)),
    no_unwind
{
    h.hist.record_correct(value, interval).expect("value within the histogram's bounds")
}

/// `Histogram::is_empty`: no sample recorded (the total count is zero); it
/// cannot panic.
#[verifier::external_body]
fn hist_is_empty(h: &LatencyHistogram) -> (b: bool)
    ensures
        b == (hist_samples(*h).len() == 0),
    no_unwind
{
    h.hist.is_empty()
}

/// `Histogram::reset`: forget every sample, keep the configuration; it only
/// zeroes the counts and cannot panic.
#[verifier::external_body]
fn hist_reset(h: &mut LatencyHistogram)
    ensures
        hist_samples(*final(h)) =~= Multiset::empty(),
        hist_high(*final(h)) == hist_high(*old(h)),
        hist_sigfig(*final(h)) == hist_sigfig(*old(h)),
    no_unwind
{
    h.hist.reset()
}

/// `Histogram::clone`: a copy with the same samples and configuration. The
/// copy allocates at most 65 * 2^17 counts, far below the size at which `Vec`
/// panics, and a failed allocation aborts rather than unwinds.
#[verifier::external_body]
fn hist_clone(h: &LatencyHistogram) -> (c: LatencyHistogram)
    ensures
        hist_samples(c) == hist_samples(*h),
        hist_high(c) == hist_high(*h),
        hist_sigfig(c) == hist_sigfig(*h),
    no_unwind
{
    LatencyHistogram { hist: h.hist.clone() }
}

/// The result of a single request attempt.
#[derive(Debug, Clone, Copy, PartialEq, Eq, Structural)]
pub enum Outcome {
    Success,
    /// Any non-2xx HTTP status, transport error, or timeout.
    Failure,
}

/// Why a recorder could not be made.
#[derive(Debug, Clone, Copy, PartialEq, Eq, Structural)]
pub enum RecorderError {
    /// The histogram crate refused the bounds.
    HistogramBounds,
}

/// Latencies and outcome counts of one chart / knee window.
pub struct WindowSample {
    /// Raw latencies recorded in the window, in microseconds.
    pub histogram: LatencyHistogram,
    pub success: u64,
    pub failure: u64,
}

/// `latency_us` clamped into the tracked range `[1, MAX_LATENCY_US]`.
pub open spec fn clamp_latency(latency_us: u64) -> u64 {
    if latency_us < 1 {
        1
    } else if latency_us > MAX_LATENCY_US {
        MAX_LATENCY_US
    } else {
        latency_us
    }
}

/// The bucket a latency is counted in by the recorders' histograms, as the
/// lowest value of that bucket.
pub open spec fn bucket(latency_us: u64) -> u64 {
    bucket_floor(SIGNIFICANT_DIGITS, latency_us)
}

/// What a recorder holds, as mathematical values. Latencies are in
/// microseconds, each as the lowest value of its histogram bucket.
#[verifier::ext_equal]
pub struct RecorderView {
    /// One element per raw latency recorded.
    pub raw: Multiset<u64>,
    /// The coordinated-omission-corrected latencies.
    pub corrected: Multiset<u64>,
    /// Raw latencies since the window was last taken.
    pub window: Multiset<u64>,
    /// The default send interval used for correction.
    pub interval: Option<u64>,
    pub success: u64,
    pub failure: u64,
    pub window_success: u64,
    pub window_failure: u64,
}

impl RecorderView {
    /// A recorder with nothing recorded and `interval` as its default.
    pub open spec fn fresh(interval: Option<u64>) -> RecorderView {
        RecorderView {
            raw: Multiset::empty(),
            corrected: Multiset::empty(),
            window: Multiset::empty(),
            interval,
            success: 0,
            failure: 0,
            window_success: 0,
            window_failure: 0,
        }
    }

    /// Requests recorded so far.
    pub open spec fn total(self) -> int {
        self.success + self.failure
    }

    /// There is room to count one more request and every sample its
    /// correction may add.
    pub open spec fn can_count(self) -> bool {
        &&& self.total() < u64::MAX
        &&& self.corrected.len() + MAX_LATENCY_US <= u64::MAX
    }

    /// `next` is `self` after one request of `latency_us` with `outcome`,
    /// corrected against `interval` when that is a positive interval.
    pub open spec fn recorded(
        self,
        next: RecorderView,
        latency_us: u64,
        outcome: Outcome,
        interval: Option<u64>,
    ) -> bool {
        let v = bucket(clamp_latency(latency_us));
        &&& next.raw == self.raw.insert(v)
        &&& next.window == self.window.insert(v)
        &&& next.corrected == self.corrected.add(correction_of(latency_us, interval))
        &&& next.success == self.success + (if outcome == Outcome::Success { 1int } else { 0int })
        &&& next.failure == self.failure + (if outcome == Outcome::Failure { 1int } else { 0int })
        &&& next.window_success == self.window_success + (if outcome == Outcome::Success { 1int } else { 0int })
        &&& next.window_failure == self.window_failure + (if outcome == Outcome::Failure { 1int } else { 0int })
        &&& next.interval == self.interval
    }
}

/// The corrected samples one request of `latency_us` adds: the sample and
/// its backfill when `interval` is a positive interval, else the sample alone.
pub open spec fn correction_of(latency_us: u64, interval: Option<u64>) -> Multiset<u64> {
    let v = clamp_latency(latency_us);
    match interval {
        Some(i) => if i > 0 {
            corrected_samples(SIGNIFICANT_DIGITS, v, i)
        } else {
            Multiset::singleton(bucket(v))
        },
        None => Multiset::singleton(bucket(v)),
    }
}

/// The histograms and counters of a recorder.
struct RecorderState {
    /// Raw latencies exactly as observed.
    raw: LatencyHistogram,
    /// Latencies corrected for coordinated omission.
    corrected: LatencyHistogram,
    /// Raw latencies since the window was last taken; reset each time it is
    /// read so the live chart shows bands separating rather than a flattened
    /// cumulative average.
    window: LatencyHistogram,
    /// The planned gap between sends, in microseconds; `None` disables
    /// correction (e.g. a closed-model run where back-pressure is intentional).
    expected_interval_us: Option<u64>,
    success: u64,
    failure: u64,
    window_success: u64,
    window_failure: u64,
}

impl RecorderState {
    /// The state as mathematical values.
    spec fn view_of(self) -> RecorderView {
        RecorderView {
            raw: hist_samples(self.raw),
            corrected: hist_samples(self.corrected),
            window: hist_samples(self.window),
            interval: self.expected_interval_us,
            success: self.success,
            failure: self.failure,
            window_success: self.window_success,
            window_failure: self.window_failure,
        }
    }

    /// The histograms track the full latency range at the recorders'
    /// precision, the counts match the samples, and the corrected histogram
    /// holds every raw sample.
    spec fn well_formed(self) -> bool {
        &&& hist_high(self.raw) == MAX_LATENCY_US
        &&& hist_high(self.corrected) == MAX_LATENCY_US
        &&& hist_high(self.window) == MAX_LATENCY_US
        &&& hist_sigfig(self.raw) == SIGNIFICANT_DIGITS
        &&& hist_sigfig(self.corrected) == SIGNIFICANT_DIGITS
        &&& hist_sigfig(self.window) == SIGNIFICANT_DIGITS
        &&& hist_samples(self.raw).len() == self.success + self.failure
        &&& hist_samples(self.window).len() == self.window_success + self.window_failure
        &&& self.success + self.failure <= u64::MAX
        &&& self.window_success <= self.success
        &&& self.window_failure <= self.failure
        &&& hist_samples(self.raw).subset_of(hist_samples(self.corrected))
    }

    /// A state with nothing recorded, over copies of the empty histogram `h`.
    fn fresh(h: LatencyHistogram, expected_interval_us: Option<u64>) -> (st: Self)
        requires
            hist_samples(h).len() == 0,
            hist_high(h) == MAX_LATENCY_US,
            hist_sigfig(h) == SIGNIFICANT_DIGITS,
        ensures
            st.well_formed(),
            st.view_of() == RecorderView::fresh(expected_interval_us),
    {
        let corrected = hist_clone(&h);
        let window = hist_clone(&h);
        let st = RecorderState {
            raw: h,
            corrected,
            window,
            expected_interval_us,
            success: 0,
            failure: 0,
            window_success: 0,
            window_failure: 0,
        };
        assert(st.view_of() =~= RecorderView::fresh(expected_interval_us));
        st
    }

    fn record_inner(&mut self, latency_us: u64, outcome: Outcome, interval_us: Option<u64>)
        requires
            old(self).well_formed(),
            old(self).view_of().can_count(),
        ensures
            final(self).well_formed(),
            old(self).view_of().recorded(final(self).view_of(), latency_us, outcome, interval_us),
        no_unwind
    {
        let micros = if latency_us < 1 {
            1
        } else if latency_us > MAX_LATENCY_US {
            MAX_LATENCY_US
        } else {
            latency_us
        };
        let ghost corr0 = hist_samples(self.corrected);
        let ghost raw0 = hist_samples(self.raw);
        hist_record(&mut self.raw, micros);
        hist_record(&mut self.window, micros);
        match interval_us {
            Some(interval) if interval > 0 => {
                proof {
                    lemma_corrected_len_le(SIGNIFICANT_DIGITS, micros, interval);
                }
                hist_record_correct(&mut self.corrected, micros, interval);
                proof {
                    let b = bucket(micros);
                    let cs = corrected_samples(SIGNIFICANT_DIGITS, micros, interval);
                    assert(cs.count(b) >= 1) by {
                        if micros > interval {
                            assert(Multiset::singleton(b).count(b) == 1);
                        }
                    }
                    assert(raw0.insert(b).subset_of(corr0.add(cs))) by {
                        assert forall|x: u64| raw0.insert(b).count(x) <= corr0.add(cs).count(x) by {
                            assert(raw0.count(x) <= corr0.count(x));
                        }
                    }
                }
            },
            _ => {
                hist_record(&mut self.corrected, micros);
                proof {
                    let b = bucket(micros);
                    assert(corr0.insert(b) =~= corr0.add(Multiset::singleton(b)));
                    assert forall|x: u64| raw0.insert(b).count(x) <= corr0.insert(b).count(x) by {
                        assert(raw0.count(x) <= corr0.count(x));
                    }
                }
            },
        }
        match outcome {
            Outcome::Success => {
                self.success = self.success + 1;
                self.window_success = self.window_success + 1;
            },
            Outcome::Failure => {
                self.failure = self.failure + 1;
                self.window_failure = self.window_failure + 1;
            },
        }
    }

    /// Empty the window and its counters.
    fn reset_window(&mut self)
        requires
            old(self).well_formed(),
        ensures
            final(self).well_formed(),
            final(self).view_of() == (RecorderView {
                window: Multiset::empty(),
                window_success: 0,
                window_failure: 0,
                ..old(self).view_of()
            }),
        no_unwind
    {
        hist_reset(&mut self.window);
        self.window_success = 0;
        self.window_failure = 0;
        assert(self.view_of() =~= (RecorderView {
            window: Multiset::empty(),
            window_success: 0,
            window_failure: 0,
            ..old(self).view_of()
        }));
    }
}

/// Records latencies and corrects them for coordinated omission against a
/// planned sending interval.
pub struct Recorder {
    state: RecorderState,
}

impl View for Recorder {
    type V = RecorderView;

    closed spec fn view(&self) -> RecorderView {
        self.state.view_of()
    }
}

impl Recorder {
    /// The histograms track the full latency range, the counts match the
    /// samples, and the corrected histogram holds every raw sample.
    #[verifier::type_invariant]
    closed spec fn well_formed(self) -> bool {
        self.state.well_formed()
    }

    /// A recorder tracking latencies from 1µs to 60s with three significant
    /// figures. `expected_interval_us` is the planned gap between sends in an
    /// open-model run; `None` disables coordinated-omission correction.
    pub fn new(expected_interval_us: Option<u64>) -> (r: Result<Self, RecorderError>)
        ensures
            r is Ok,
            r matches Ok(rec) ==> rec@ == RecorderView::fresh(expected_interval_us),
    {
        let h = match new_histogram(MAX_LATENCY_US, SIGNIFICANT_DIGITS) {
            Ok(h) => h,
            Err(_) => return Err(RecorderError::HistogramBounds),
        };
        Ok(Recorder { state: RecorderState::fresh(h, expected_interval_us) })
    }

    /// An empty recorder with this one's histogram configuration and
    /// `expected_interval_us` as its default interval.
    pub fn emptied(&self, expected_interval_us: Option<u64>) -> (r: Self)
        ensures
            r@ == RecorderView::fresh(expected_interval_us),
    {
        proof {
            use_type_invariant(self);
        }
        let mut h = hist_clone(&self.state.raw);
        hist_reset(&mut h);
        Recorder { state: RecorderState::fresh(h, expected_interval_us) }
    }

    /// Update the default correction interval (e.g. as a ramp's rate changes).
    pub fn set_expected_interval(&mut self, interval_us: Option<u64>)
        ensures
            final(self)@ == (RecorderView { interval: interval_us, ..old(self)@ }),
    {
        proof {
            use_type_invariant(&*self);
        }
        self.state.expected_interval_us = interval_us;
        assert(self@ =~= (RecorderView { interval: interval_us, ..old(self)@ }));
    }

    /// Records one completed request, correcting against the recorder's
    /// current expected interval. The corrected histogram keeps holding every
    /// raw sample: correction only ever adds.
    pub fn record(&mut self, latency_us: u64, outcome: Outcome)
        requires
            old(self)@.can_count(),
        ensures
            old(self)@.recorded(final(self)@, latency_us, outcome, old(self)@.interval),
            final(self)@.raw.subset_of(final(self)@.corrected),
        no_unwind
    {
        proof {
            use_type_invariant(&*self);
        }
        let interval = self.state.expected_interval_us;
        self.state.record_inner(latency_us, outcome, interval);
    }

    /// Records one completed request, correcting against the interval that
    /// applied when it was scheduled (needed for ramps).
    pub fn record_with_interval(&mut self, latency_us: u64, outcome: Outcome, expected_interval_us: u64)
        requires
            old(self)@.can_count(),
        ensures
            old(self)@.recorded(final(self)@, latency_us, outcome, Some(expected_interval_us)),
            final(self)@.raw.subset_of(final(self)@.corrected),
        no_unwind
    {
        proof {
            use_type_invariant(&*self);
        }
        self.state.record_inner(latency_us, outcome, Some(expected_interval_us));
    }

    /// Returns the samples recorded since the last call and resets the
    /// window; `None` if nothing was recorded.
    pub fn take_window(&mut self) -> (w: Option<WindowSample>)
        ensures
            w is None <==> old(self)@.window.len() == 0,
            w is None ==> final(self)@ == old(self)@,
            w matches Some(ws) ==> {
                &&& hist_samples(ws.histogram) == old(self)@.window
                &&& ws.success == old(self)@.window_success
                &&& ws.failure == old(self)@.window_failure
                &&& ws.success + ws.failure == hist_samples(ws.histogram).len()
                &&& final(self)@ == (RecorderView {
                    window: Multiset::empty(),
                    window_success: 0,
                    window_failure: 0,
                    ..old(self)@
                })
            },
        no_unwind
    {
        proof {
            use_type_invariant(&*self);
        }
        if hist_is_empty(&self.state.window) {
            return None;
        }
        let histogram = hist_clone(&self.state.window);
        let stats = WindowSample {
            histogram,
            success: self.state.window_success,
            failure: self.state.window_failure,
        };
        self.state.reset_window();
        Some(stats)
    }

    /// The raw latency histogram.
    pub fn raw(&self) -> (h: &LatencyHistogram)
        ensures
            hist_samples(*h) == self@.raw,
    {
        &self.state.raw
    }

    /// The coordinated-omission-corrected latency histogram.
    pub fn corrected(&self) -> (h: &LatencyHistogram)
        ensures
            hist_samples(*h) == self@.corrected,
    {
        &self.state.corrected
    }

    /// Successes recorded so far.
    pub fn success(&self) -> (n: u64)
        ensures
            n == self@.success,
    {
        self.state.success
    }

    /// Failures recorded so far.
    pub fn failure(&self) -> (n: u64)
        ensures
            n == self@.failure,
    {
        self.state.failure
    }

    /// Requests recorded so far: one raw sample each.
    pub fn total(&self) -> (n: u64)
        ensures
            n == self@.total(),
            n == self@.raw.len(),
    {
        proof {
            use_type_invariant(self);
        }
        self.state.success + self.state.failure
    }
}

/// Law: a sample no longer than the send interval is recorded as is; a longer
/// one is backfilled with one sample per interval it blocked.
pub proof fn law_correction_backfill(sigfig: u8, value: u64, interval: u64)
    requires
        interval > 0,
    ensures
        value <= interval ==> corrected_samples(sigfig, value, interval) =~= Multiset::singleton(
            bucket_floor(sigfig, value),
        ),
        corrected_samples(sigfig, value, interval).len() == 1 + if value > interval {
            ((value - interval) / (interval as int)) as nat
        } else {
            0nat
        },
{
    if value > interval {
        lemma_missing_len(sigfig, (value - interval) as int, interval as int);
    }
}

/// A corrected sample adds no more samples than its latency in microseconds.
proof fn lemma_corrected_len_le(sigfig: u8, value: u64, interval: u64)
    requires
        interval > 0,
    ensures
        corrected_samples(sigfig, value, interval).len() <= if value > 1 { value as int } else { 1 },
{
    law_correction_backfill(sigfig, value, interval);
    if value > interval {
        let m = (value - interval) as int;
        let i = interval as int;
        assert(m / i <= m) by {
            vstd::arithmetic::div_mod::lemma_div_is_ordered_by_denominator(m, 1, i);
        }
    }
}

proof fn lemma_missing_len(sigfig: u8, m: int, interval: int)
    requires
        interval > 0,
        m >= 0,
    ensures
        missing_samples(sigfig, m, interval).len() == (m / interval) as nat,
    decreases m,
{
    if m >= interval {
        lemma_missing_len(sigfig, m - interval, interval);
        vstd::arithmetic::div_mod::lemma_div_plus_one(m - interval, interval);
    } else {
        vstd::arithmetic::div_mod::lemma_basic_div(m, interval);
    }
}

} // verus!
