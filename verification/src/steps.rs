//! Per-step latency aggregation for multi-endpoint scenarios.
//!
//! The overall [`Recorder`] answers "when did the system break?". Per-step
//! recorders answer "which endpoint was holding the pool?". Both use the same
//! coordinated-omission correction against the open-model send interval.
//! Steps are kept in ascending name order, the order `String`'s `Ord` gives.
use vstd::prelude::*;
use vstd::multiset::Multiset;

use crate::recorder::{correction_of, Outcome, MAX_LATENCY_US, Recorder, RecorderError, RecorderView, WindowSample};
use crate::text::{chars_eq, chars_lt, chars_of, lemma_seq_lt_asymmetric, lemma_seq_lt_irreflexive, lemma_seq_lt_total, lemma_seq_lt_transitive, seq_lt};

verus! {

/// Step names strictly ascending: no name occurs twice.
pub open spec fn names_sorted(steps: Seq<(Seq<char>, RecorderView)>) -> bool {
    forall|i: int, j: int| 0 <= i < j < steps.len() ==> seq_lt(#[trigger] steps[i].0, #[trigger] steps[j].0)
}

/// `name` has a recorder among `steps`.
pub open spec fn has_step(steps: Seq<(Seq<char>, RecorderView)>, name: Seq<char>) -> bool {
    exists|i: int| 0 <= i < steps.len() && #[trigger] steps[i].0 == name
}

/// `next` is `prev` after one request of `latency_us` with `outcome`,
/// corrected against `interval`, was recorded for the step `name`: its
/// recorder records it, made fresh with the `seed` interval if the step is
/// new; every other step stays as it was.
pub open spec fn step_recorded(
    prev: Seq<(Seq<char>, RecorderView)>,
    next: Seq<(Seq<char>, RecorderView)>,
    name: Seq<char>,
    seed: Option<u64>,
    latency_us: u64,
    outcome: Outcome,
    interval: u64,
) -> bool {
    if has_step(prev, name) {
        exists|i: int|
            {
                &&& 0 <= i < prev.len()
                &&& #[trigger] prev[i].0 == name
                &&& next.len() == prev.len()
                &&& next[i].0 == name
                &&& prev[i].1.recorded(next[i].1, latency_us, outcome, Some(interval))
                &&& forall|j: int| 0 <= j < prev.len() && j != i ==> #[trigger] next[j] == prev[j]
            }
    } else {
        exists|pos: int, r: RecorderView|
            {
                &&& 0 <= pos <= prev.len()
                &&& #[trigger] prev.insert(pos, (name, r)) == next
                &&& RecorderView::fresh(seed).recorded(r, latency_us, outcome, Some(interval))
            }
    }
}

/// What a multi-recorder holds, as mathematical values.
pub struct MultiView {
    /// Every sample.
    pub overall: RecorderView,
    /// One recorder per named step, in ascending name order.
    pub steps: Seq<(Seq<char>, RecorderView)>,
    /// The default interval a new step's recorder starts with.
    pub seed: Option<u64>,
}

/// The view of one stored step.
pub open spec fn step_view(e: (String, Recorder)) -> (Seq<char>, RecorderView) {
    (e.0@, e.1@)
}

/// The views of stored steps.
pub open spec fn steps_view(v: Seq<(String, Recorder)>) -> Seq<(Seq<char>, RecorderView)> {
    v.map_values(|e: (String, Recorder)| step_view(e))
}

/// Every step's recorder has seen at most `total` requests and holds at most
/// `corrected` corrected samples.
pub open spec fn steps_within(v: Seq<(Seq<char>, RecorderView)>, total: int, corrected: int) -> bool {
    forall|i: int|
        0 <= i < v.len() ==> (#[trigger] v[i]).1.total() <= total && v[i].1.corrected.len()
            <= corrected
}

/// Position of the first step whose name is not below `k`.
fn lower_bound(steps: &Vec<(String, Recorder)>, k: &Vec<char>) -> (i: usize)
    ensures
        i <= steps@.len(),
        forall|j: int| 0 <= j < i ==> seq_lt(#[trigger] steps_view(steps@)[j].0, k@),
        i < steps@.len() ==> !seq_lt(steps_view(steps@)[i as int].0, k@),
{
    let mut i: usize = 0;
    while i < steps.len()
        invariant
            i <= steps.len(),
            forall|j: int| 0 <= j < i ==> seq_lt(#[trigger] steps_view(steps@)[j].0, k@),
        decreases steps.len() - i,
    {
        let ek = chars_of(steps[i].0.as_str());
        if !chars_lt(ek.as_slice(), k.as_slice()) {
            return i;
        }
        i = i + 1;
    }
    i
}

/// Records one sample for the step `name` alone, making its recorder from
/// `template` with the `seed` interval if the step is new.
fn record_step(
    steps: &mut Vec<(String, Recorder)>,
    template: &Recorder,
    seed: Option<u64>,
    name: &str,
    latency_us: u64,
    outcome: Outcome,
    interval_us: u64,
    Ghost(total): Ghost<int>,
    Ghost(corrected): Ghost<int>,
)
    requires
        names_sorted(steps_view(old(steps)@)),
        steps_within(steps_view(old(steps)@), total, corrected),
        total < u64::MAX,
        0 <= total,
        0 <= corrected,
        corrected + MAX_LATENCY_US <= u64::MAX,
        name@.len() > 0,
    ensures
        names_sorted(steps_view(final(steps)@)),
        step_recorded(
            steps_view(old(steps)@),
            steps_view(final(steps)@),
            name@,
            seed,
            latency_us,
            outcome,
            interval_us,
        ),
        steps_within(
            steps_view(final(steps)@),
            total + 1,
            corrected + correction_of(latency_us, Some(interval_us)).len(),
        ),
{
    let k = chars_of(name);
    let i = lower_bound(steps, &k);
    let ghost old_p = steps_view(steps@);
    let ghost nm = name@;
    let ghost add = correction_of(latency_us, Some(interval_us)).len();
    let found = if i < steps.len() {
        let ek = chars_of(steps[i].0.as_str());
        chars_eq(ek.as_slice(), k.as_slice())
    } else {
        false
    };
    if found {
        let (step_name, mut rec) = steps.remove(i);
        proof {
            assert(step_view((step_name, rec)) == old_p[i as int]);
        }
        rec.record_with_interval(latency_us, outcome, interval_us);
        steps.insert(i, (step_name, rec));
        proof {
            let new_p = steps_view(steps@);
            assert(new_p =~= old_p.update(i as int, (nm, rec@)));
            assert(names_sorted(new_p)) by {
                assert forall|a: int, b: int| 0 <= a < b < new_p.len() implies seq_lt(
                    #[trigger] new_p[a].0,
                    #[trigger] new_p[b].0,
                ) by {
                    assert(seq_lt(old_p[a].0, old_p[b].0));
                }
            }
            assert(has_step(old_p, nm)) by {
                assert(old_p[i as int].0 == nm);
            }
            assert(new_p[i as int] == (nm, rec@));
            assert(steps_within(new_p, total + 1, corrected + add)) by {
                assert forall|j: int| 0 <= j < new_p.len() implies (#[trigger] new_p[j]).1.total()
                    <= total + 1 && new_p[j].1.corrected.len() <= corrected + add by {
                    assert(old_p[j].1.total() <= total);
                }
            }
        }
    } else {
        let mut rec = template.emptied(seed);
        rec.record_with_interval(latency_us, outcome, interval_us);
        let ghost r = rec@;
        steps.insert(i, (name.to_string(), rec));
        proof {
            let new_p = steps_view(steps@);
            assert(new_p =~= old_p.insert(i as int, (nm, r)));
            if i < old_p.len() {
                assert(old_p[i as int].0 != nm);
                lemma_seq_lt_total(old_p[i as int].0, nm);
                assert(seq_lt(nm, old_p[i as int].0));
            }
            assert(names_sorted(new_p)) by {
                assert forall|a: int, b: int| 0 <= a < b < new_p.len() implies seq_lt(
                    #[trigger] new_p[a].0,
                    #[trigger] new_p[b].0,
                ) by {
                    if b < i {
                        assert(seq_lt(old_p[a].0, old_p[b].0));
                    } else if b == i {
                        assert(new_p[a].0 == old_p[a].0);
                    } else if a < i {
                        assert(new_p[b].0 == old_p[b - 1].0);
                        assert(seq_lt(old_p[a].0, nm));
                        if b - 1 > i {
                            assert(seq_lt(old_p[i as int].0, old_p[b - 1].0));
                            lemma_seq_lt_transitive(nm, old_p[i as int].0, old_p[b - 1].0);
                        }
                        lemma_seq_lt_transitive(old_p[a].0, nm, old_p[b - 1].0);
                    } else if a == i {
                        assert(new_p[b].0 == old_p[b - 1].0);
                        if b - 1 > i {
                            assert(seq_lt(old_p[i as int].0, old_p[b - 1].0));
                            lemma_seq_lt_transitive(nm, old_p[i as int].0, old_p[b - 1].0);
                        }
                    } else {
                        assert(seq_lt(old_p[a - 1].0, old_p[b - 1].0));
                    }
                }
            }
            assert(!has_step(old_p, nm)) by {
                if has_step(old_p, nm) {
                    let j = choose|j: int| 0 <= j < old_p.len() && #[trigger] old_p[j].0 == nm;
                    if j < i {
                        lemma_seq_lt_irreflexive(nm);
                    } else if j > i {
                        assert(seq_lt(old_p[i as int].0, old_p[j].0));
                        lemma_seq_lt_asymmetric(nm, old_p[i as int].0);
                    }
                }
            }
            assert(steps_within(new_p, total + 1, corrected + add)) by {
                assert forall|j: int| 0 <= j < new_p.len() implies (#[trigger] new_p[j]).1.total()
                    <= total + 1 && new_p[j].1.corrected.len() <= corrected + add by {
                    if j < i {
                        assert(new_p[j] == old_p[j]);
                        assert(old_p[j].1.total() <= total);
                        assert(old_p[j].1.corrected.len() <= corrected);
                    } else if j > i {
                        assert(new_p[j] == old_p[j - 1]);
                        assert(old_p[j - 1].1.total() <= total);
                        assert(old_p[j - 1].1.corrected.len() <= corrected);
                    } else {
                        assert(new_p[j] == (nm, r));
                        assert(r.corrected =~= Multiset::<u64>::empty().add(
                            correction_of(latency_us, Some(interval_us)),
                        ));
                        assert(r.corrected.len() == add);
                        assert(r.total() == 1);
                    }
                }
            }
        }
    }
}

/// Records every sample into an overall histogram and, when a step name is
/// given, into that step's histogram as well.
pub struct MultiRecorder {
    overall: Recorder,
    steps: Vec<(String, Recorder)>,
    /// Seed interval used when a step's recorder is created on first use.
    seed_interval: Option<u64>,
}

impl View for MultiRecorder {
    type V = MultiView;

    closed spec fn view(&self) -> MultiView {
        MultiView { overall: self.overall@, steps: steps_view(self.steps@), seed: self.seed_interval }
    }
}

impl MultiRecorder {
    /// Step names are strictly ascending and no step has seen more than the
    /// overall recorder.
    #[verifier::type_invariant]
    closed spec fn well_formed(self) -> bool {
        &&& names_sorted(self@.steps)
        &&& steps_within(self@.steps, self@.overall.total(), self@.overall.corrected.len() as int)
    }

    /// A multi-recorder with no samples and no steps; `expected_interval_us`
    /// is the default interval of the overall recorder and of each step's.
    pub fn new(expected_interval_us: Option<u64>) -> (r: Result<Self, RecorderError>)
        ensures
            r is Ok,
            r matches Ok(m) ==> {
                &&& m@.overall == RecorderView::fresh(expected_interval_us)
                &&& m@.steps.len() == 0
                &&& m@.seed == expected_interval_us
            },
    {
        let overall = Recorder::new(expected_interval_us)?;
        let steps: Vec<(String, Recorder)> = Vec::new();
        assert(steps_view(steps@) =~= Seq::<(Seq<char>, RecorderView)>::empty());
        Ok(MultiRecorder { overall, steps, seed_interval: expected_interval_us })
    }

    /// Records into the overall histogram and, if `step` names a step, into
    /// that step's histogram. An empty step name counts as overall only.
    /// Steps stay in ascending name order.
    pub fn record_with_interval(
        &mut self,
        latency_us: u64,
        outcome: Outcome,
        expected_interval_us: u64,
        step: Option<&str>,
    )
        requires
            old(self)@.overall.can_count(),
        ensures
            old(self)@.overall.recorded(
                final(self)@.overall,
                latency_us,
                outcome,
                Some(expected_interval_us),
            ),
            final(self)@.seed == old(self)@.seed,
            names_sorted(final(self)@.steps),
            match step {
                Some(name) => if name@.len() > 0 {
                    step_recorded(
                        old(self)@.steps,
                        final(self)@.steps,
                        name@,
                        old(self)@.seed,
                        latency_us,
                        outcome,
                        expected_interval_us,
                    )
                } else {
                    final(self)@.steps == old(self)@.steps
                },
                None => final(self)@.steps == old(self)@.steps,
            },
    {
        proof {
            use_type_invariant(&*self);
        }
        let ghost t0 = self@.overall.total();
        let ghost c0 = self@.overall.corrected.len() as int;
        let mut steps: Vec<(String, Recorder)> = Vec::new();
        std::mem::swap(&mut steps, &mut self.steps);
        proof {
            assert(steps_view(self.steps@) =~= Seq::<(Seq<char>, RecorderView)>::empty());
        }
        self.overall.record_with_interval(latency_us, outcome, expected_interval_us);
        if let Some(name) = step {
            if !name.is_empty() {
                record_step(
                    &mut steps,
                    &self.overall,
                    self.seed_interval,
                    name,
                    latency_us,
                    outcome,
                    expected_interval_us,
                    Ghost(t0),
                    Ghost(c0),
                );
            }
        }
        proof {
            let v = steps_view(steps@);
            assert(steps_within(v, self@.overall.total(), self@.overall.corrected.len() as int)) by {
                assert forall|j: int| 0 <= j < v.len() implies (#[trigger] v[j]).1.total()
                    <= self@.overall.total() && v[j].1.corrected.len()
                    <= self@.overall.corrected.len() by {
                    assert(v[j].1.total() <= t0 + 1);
                }
            }
        }
        self.steps = steps;
    }

    /// Returns the overall samples recorded since the last call and resets
    /// the overall window; `None` if nothing was recorded.
    pub fn take_window(&mut self) -> (w: Option<WindowSample>)
        ensures
            final(self)@.steps == old(self)@.steps,
            final(self)@.seed == old(self)@.seed,
            w is None <==> old(self)@.overall.window.len() == 0,
            w is None ==> final(self)@.overall == old(self)@.overall,
            w matches Some(ws) ==> {
                &&& crate::recorder::hist_samples(ws.histogram) == old(self)@.overall.window
                &&& ws.success == old(self)@.overall.window_success
                &&& ws.failure == old(self)@.overall.window_failure
                &&& final(self)@.overall == (RecorderView {
                    window: vstd::multiset::Multiset::empty(),
                    window_success: 0,
                    window_failure: 0,
                    ..old(self)@.overall
                })
            },
    {
        proof {
            use_type_invariant(&*self);
        }
        self.overall.take_window()
    }

    /// The overall recorder.
    pub fn overall(&self) -> (r: &Recorder)
        ensures
            r@ == self@.overall,
    {
        &self.overall
    }

    /// Number of named steps seen so far.
    pub fn step_count(&self) -> (n: usize)
        ensures
            n == self@.steps.len(),
    {
        self.steps.len()
    }

    /// The `i`-th step in ascending name order, with its recorder. Names are
    /// strictly ascending.
    pub fn step(&self, i: usize) -> (s: (&String, &Recorder))
        requires
            i < self@.steps.len(),
        ensures
            s.0@ == self@.steps[i as int].0,
            s.1@ == self@.steps[i as int].1,
            names_sorted(self@.steps),
    {
        proof {
            use_type_invariant(self);
        }
        let e = &self.steps[i];
        assert(step_view(*e) == self@.steps[i as int]);
        (&e.0, &e.1)
    }
}

} // verus!
