//! SLO-driven capacity: where a run stopped holding its p99 budget.
//!
//! Each window is first reduced to whether it met the SLO (low errors and p99
//! within budget). This module finds the window where a *sustained* breach
//! began; the capacity is then read from the windows before it.
use vstd::prelude::*;

use crate::knee::{warmup, warmup_len};

verus! {

/// Consecutive over-budget windows required before a breach is trusted.
pub const SUSTAINED_BREACH_WINDOWS: usize = 3;

/// Number of windows in `[i, hi)` that missed the SLO.
pub open spec fn miss_count(m: Seq<bool>, i: int, hi: int) -> nat
    decreases hi - i,
{
    if i >= hi || i < 0 || hi > m.len() {
        0
    } else {
        miss_count(m, i, hi - 1) + (if !m[hi - 1] {
            1nat
        } else {
            0nat
        })
    }
}

/// `min(a, b)` on integers.
pub open spec fn min_int(a: int, b: int) -> int {
    if a < b {
        a
    } else {
        b
    }
}

/// Window `i` missed the SLO and so did every window among the next
/// [`SUSTAINED_BREACH_WINDOWS`] (as many as the run has).
pub open spec fn breach_at(m: Seq<bool>, i: int) -> bool {
    let hi = min_int(i + SUSTAINED_BREACH_WINDOWS, m.len() as int);
    &&& 0 <= i < m.len()
    &&& !m[i]
    &&& miss_count(m, i, hi) >= min_int(SUSTAINED_BREACH_WINDOWS as int, m.len() - i)
}

/// The first sustained breach at or after `i`.
pub open spec fn first_breach_from(m: Seq<bool>, i: int) -> Option<int>
    decreases m.len() - i,
{
    if i < 0 || i >= m.len() {
        None
    } else if breach_at(m, i) {
        Some(i)
    } else {
        first_breach_from(m, i + 1)
    }
}

/// Count the misses in `[i, hi)`.
fn count_misses(m: &[bool], i: usize, hi: usize) -> (c: usize)
    requires
        i <= hi <= m@.len(),
    ensures
        c == miss_count(m@, i as int, hi as int),
{
    let mut c: usize = 0;
    let mut k = i;
    while k < hi
        invariant
            i <= k <= hi <= m@.len(),
            c == miss_count(m@, i as int, k as int),
            c <= k - i,
        decreases hi - k,
    {
        if !m[k] {
            c = c + 1;
        }
        k = k + 1;
    }
    c
}

/// The window where the run sustainably stopped meeting its SLO.
///
/// `meets[i]` says whether window `i` held the budget. Scanning after the
/// warm-up prefix, the first window that missed and is followed by misses in
/// the next windows (up to [`SUSTAINED_BREACH_WINDOWS`] in all) is the breach.
pub fn first_sustained_breach(meets: &[bool]) -> (r: Option<usize>)
    ensures
        r matches Some(i) ==> first_breach_from(meets@, warmup(meets@.len() as int)) == Some(
            i as int,
        ),
        r is None ==> first_breach_from(meets@, warmup(meets@.len() as int)) is None,
        r matches Some(i) ==> warmup(meets@.len() as int) <= i && misses_from(meets@, i as int)
            && forall|j: int| warmup(meets@.len() as int) <= j < i ==> !misses_from(meets@, j),
        r is None ==> forall|j: int|
            warmup(meets@.len() as int) <= j < meets@.len() ==> !misses_from(meets@, j),
{
    proof {
        law_first_breach_is_earliest(meets@);
    }
    let n = meets.len();
    let start = warmup_len(n);
    let mut i = start;
    if i > n {
        return None;
    }
    while i < n
        invariant
            n == meets@.len(),
            start <= i <= n,
            first_breach_from(meets@, start as int) == first_breach_from(meets@, i as int),
            start == warmup(n as int),
        decreases n - i,
    {
        if !meets[i] {
            let hi = if SUSTAINED_BREACH_WINDOWS < n - i {
                i + SUSTAINED_BREACH_WINDOWS
            } else {
                n
            };
            let need = if SUSTAINED_BREACH_WINDOWS < n - i {
                SUSTAINED_BREACH_WINDOWS
            } else {
                n - i
            };
            if count_misses(meets, i, hi) >= need {
                proof {
                    law_first_breach_is_earliest(meets@);
                }
                return Some(i);
            }
        }
        i = i + 1;
    }
    None
}

/// Law: a breach means every window in its stretch (up to
/// [`SUSTAINED_BREACH_WINDOWS`]) missed the SLO — one noisy window followed by
/// a recovery is never the ceiling.
pub proof fn law_breach_is_sustained(m: Seq<bool>, i: int)
    ensures
        breach_at(m, i) <==> (0 <= i < m.len() && forall|j: int|
            i <= j < min_int(i + SUSTAINED_BREACH_WINDOWS, m.len() as int) ==> !(#[trigger] m[j])),
{
    if 0 <= i < m.len() {
        let hi = min_int(i + SUSTAINED_BREACH_WINDOWS, m.len() as int);
        lemma_miss_count_full(m, i, hi);
    }
}

/// All of `[i, hi)` missed exactly when the miss count is the full width.
proof fn lemma_miss_count_full(m: Seq<bool>, i: int, hi: int)
    requires
        0 <= i <= hi <= m.len(),
    ensures
        miss_count(m, i, hi) <= hi - i,
        (miss_count(m, i, hi) >= hi - i) <==> (forall|j: int| i <= j < hi ==> !(#[trigger] m[j])),
    decreases hi - i,
{
    if i < hi {
        lemma_miss_count_full(m, i, hi - 1);
    }
}

/// Window `i` and every window after it up to [`SUSTAINED_BREACH_WINDOWS`] in
/// all (as many as the run has) missed the SLO.
pub open spec fn misses_from(m: Seq<bool>, i: int) -> bool {
    &&& 0 <= i < m.len()
    &&& forall|j: int| i <= j < min_int(i + SUSTAINED_BREACH_WINDOWS, m.len() as int) ==> !(#[trigger] m[j])
}

/// The scan from `s` finds the earliest breach at or after `s`.
proof fn lemma_first_breach(m: Seq<bool>, s: int)
    requires
        0 <= s,
    ensures
        first_breach_from(m, s) matches Some(i) ==> s <= i < m.len() && breach_at(m, i) && forall|j: int|
            s <= j < i ==> !breach_at(m, j),
        first_breach_from(m, s) is None ==> forall|j: int| s <= j < m.len() ==> !breach_at(m, j),
    decreases m.len() - s,
{
    if s < m.len() && !breach_at(m, s) {
        lemma_first_breach(m, s + 1);
    }
}

/// Law: the breach reported is the earliest window after the warm-up whose
/// whole stretch missed the SLO; no earlier window after the warm-up starts
/// such a stretch, and `None` means none does anywhere after the warm-up.
pub proof fn law_first_breach_is_earliest(m: Seq<bool>)
    ensures
        first_breach_from(m, warmup(m.len() as int)) matches Some(i) ==> {
            &&& warmup(m.len() as int) <= i
            &&& misses_from(m, i)
            &&& forall|j: int| warmup(m.len() as int) <= j < i ==> !misses_from(m, j)
        },
        first_breach_from(m, warmup(m.len() as int)) is None ==> forall|j: int|
            warmup(m.len() as int) <= j < m.len() ==> !misses_from(m, j),
{
    let w = warmup(m.len() as int);
    lemma_first_breach(m, w);
    assert forall|j: int| 0 <= j < m.len() implies breach_at(m, j) == misses_from(m, j) by {
        law_breach_is_sustained(m, j);
    }
    match first_breach_from(m, w) {
        Some(i) => {
            law_breach_is_sustained(m, i);
        },
        None => {},
    }
}

} // verus!
