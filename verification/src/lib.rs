//! Core of Gust, an open-model HTTP load tester.
//!
//! The measurement side records latencies with coordinated-omission
//! correction (`recorder`, `steps`); the decision side validates scenarios
//! and CLI flags, plans each arrival's requests, picks the knee and the SLO
//! breach from per-window signals, rolls compare verdicts up and names a
//! run's failure mode. Floating-point read-outs and all I/O live in the
//! `gust` binary around this crate.
use vstd::prelude::*;

pub mod text;
pub mod strmap;
pub mod scenario;
pub mod knee;
pub mod slo;
pub mod compare;
pub mod diagnosis;
pub mod cli;
pub mod session;
pub mod report;
pub mod calendar;
pub mod recorder;
pub mod steps;
pub mod setup;

verus! {
}
