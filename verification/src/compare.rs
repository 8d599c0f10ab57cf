//! Comparing two runs: per-metric directions and the rolled-up verdict.
use vstd::prelude::*;

verus! {

/// How one metric moved from baseline → candidate.
#[derive(Debug, Clone, Copy, PartialEq, Eq, Structural)]
pub enum Direction {
    Improved,
    Regressed,
    Equivalent,
}

impl Direction {
    /// Lower-case name used in tables and JSON.
    pub fn as_str(self) -> (s: &'static str)
        ensures
            s@ == match self {
                Direction::Improved => "improved"@,
                Direction::Regressed => "regressed"@,
                Direction::Equivalent => "equivalent"@,
            },
    {
        match self {
            Direction::Improved => "improved",
            Direction::Regressed => "regressed",
            Direction::Equivalent => "equivalent",
        }
    }
}

/// Overall compare verdict for CI / humans.
#[derive(Debug, Clone, Copy, PartialEq, Eq, Structural)]
pub enum Verdict {
    /// Every comparable metric improved or stayed equivalent; at least one improved.
    Improved,
    /// Every comparable metric stayed within tolerance.
    Equivalent,
    /// At least one regression and at least one improvement.
    Mixed,
    /// At least one regression and no improvements.
    Regressed,
}

impl Verdict {
    /// Exit non-zero in CI when the candidate is not clearly as-good-or-better.
    pub fn is_failure(self) -> (b: bool)
        ensures
            b == (self == Verdict::Regressed || self == Verdict::Mixed),
    {
        match self {
            Verdict::Regressed | Verdict::Mixed => true,
            _ => false,
        }
    }

    /// Uppercase label for headlines (`IMPROVED`, `REGRESSED`, …).
    pub fn label(self) -> (s: &'static str)
        ensures
            s@ == match self {
                Verdict::Improved => "IMPROVED"@,
                Verdict::Equivalent => "EQUIVALENT"@,
                Verdict::Mixed => "MIXED"@,
                Verdict::Regressed => "REGRESSED"@,
            },
    {
        match self {
            Verdict::Improved => "IMPROVED",
            Verdict::Equivalent => "EQUIVALENT",
            Verdict::Mixed => "MIXED",
            Verdict::Regressed => "REGRESSED",
        }
    }
}

/// The verdict for a set of per-metric directions.
pub open spec fn verdict_of(ds: Seq<Direction>) -> Verdict {
    let improved = ds.contains(Direction::Improved);
    let regressed = ds.contains(Direction::Regressed);
    if improved && !regressed {
        Verdict::Improved
    } else if !improved && regressed {
        Verdict::Regressed
    } else if improved && regressed {
        Verdict::Mixed
    } else {
        Verdict::Equivalent
    }
}

/// Whether `ds` holds `d`.
fn holds(ds: &[Direction], d: Direction) -> (b: bool)
    ensures
        b == ds@.contains(d),
{
    let mut i: usize = 0;
    while i < ds.len()
        invariant
            i <= ds@.len(),
            forall|j: int| 0 <= j < i ==> ds@[j] != d,
        decreases ds@.len() - i,
    {
        if ds[i] == d {
            assert(ds@[i as int] == d);
            return true;
        }
        i = i + 1;
    }
    false
}

/// Roll the per-metric directions (corrected p99, error rate, and the knee and
/// SLO rows when both runs have them) up into one verdict.
pub fn verdict_for(ds: &[Direction]) -> (v: Verdict)
    ensures
        v == verdict_of(ds@),
        v == Verdict::Improved <==> ds@.contains(Direction::Improved) && !ds@.contains(
            Direction::Regressed,
        ),
        v == Verdict::Regressed <==> !ds@.contains(Direction::Improved) && ds@.contains(
            Direction::Regressed,
        ),
        v == Verdict::Mixed <==> ds@.contains(Direction::Improved) && ds@.contains(
            Direction::Regressed,
        ),
{
    proof {
        law_verdict_by_occurrence(ds@, ds@);
    }
    let improved = holds(ds, Direction::Improved);
    let regressed = holds(ds, Direction::Regressed);
    if improved && !regressed {
        Verdict::Improved
    } else if !improved && regressed {
        Verdict::Regressed
    } else if improved && regressed {
        Verdict::Mixed
    } else {
        Verdict::Equivalent
    }
}

/// Law: the verdict depends only on which directions occur, never on where:
/// some improvement and no regression is Improved, a regression and no
/// improvement is Regressed, both is Mixed, neither is Equivalent; two lists
/// holding the same directions get the same verdict.
pub proof fn law_verdict_by_occurrence(ds: Seq<Direction>, es: Seq<Direction>)
    ensures
        ds.contains(Direction::Improved) && !ds.contains(Direction::Regressed) ==> verdict_of(ds)
            == Verdict::Improved,
        !ds.contains(Direction::Improved) && ds.contains(Direction::Regressed) ==> verdict_of(ds)
            == Verdict::Regressed,
        ds.contains(Direction::Improved) && ds.contains(Direction::Regressed) ==> verdict_of(ds)
            == Verdict::Mixed,
        !ds.contains(Direction::Improved) && !ds.contains(Direction::Regressed) ==> verdict_of(ds)
            == Verdict::Equivalent,
        (forall|d: Direction| ds.contains(d) == es.contains(d)) ==> verdict_of(ds) == verdict_of(es),
{
    if forall|d: Direction| ds.contains(d) == es.contains(d) {
        assert(ds.contains(Direction::Improved) == es.contains(Direction::Improved));
        assert(ds.contains(Direction::Regressed) == es.contains(Direction::Regressed));
    }
}

/// Law: a comparison fails CI exactly when some metric regressed.
pub proof fn law_failure_iff_regression(ds: Seq<Direction>)
    ensures
        (verdict_of(ds) == Verdict::Regressed || verdict_of(ds) == Verdict::Mixed) <==> ds.contains(
            Direction::Regressed,
        ),
{
}

/// Law: when every metric stayed within tolerance the verdict is equivalent.
pub proof fn law_all_equivalent(ds: Seq<Direction>)
    requires
        forall|i: int| 0 <= i < ds.len() ==> #[trigger] ds[i] == Direction::Equivalent,
    ensures
        verdict_of(ds) == Verdict::Equivalent,
{
    if ds.contains(Direction::Improved) {
        let i = choose|i: int| 0 <= i < ds.len() && ds[i] == Direction::Improved;
        assert(ds[i] == Direction::Equivalent);
    }
    if ds.contains(Direction::Regressed) {
        let i = choose|i: int| 0 <= i < ds.len() && ds[i] == Direction::Regressed;
        assert(ds[i] == Direction::Equivalent);
    }
}

/// One failed gate, ready to print.
#[derive(Debug, Clone, PartialEq, Eq)]
pub struct ThresholdViolation {
    pub detail: String,
}

} // verus!
