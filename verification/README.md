# gust-core

The verified core of Gust, an open-model HTTP load tester that reports raw and
coordinated-omission-corrected latency, finds where a system breaks (the knee),
and reads SLO capacity off a ramp.

Layout:

- `src/` — the library, written in Verus. Every function carries a contract;
  all are proved against theirs except the small wrappers that call
  `hdrhistogram` and `String::push`, whose contracts are taken from that
  crate's source and std's documentation:
  - `recorder.rs`, `steps.rs`: HDR latency recording with coordinated-omission
    correction, overall and per step (the histograms come from `hdrhistogram`,
    which counts each sample in a bucket of equivalent values).
  - `scenario.rs`, `cli.rs`, `setup.rs`, `session.rs`: scenario validation,
    CLI auth/header flags, target construction, per-request credentials and the
    requests each arrival makes.
  - `knee.rs`, `slo.rs`, `compare.rs`, `diagnosis.rs`: the decisions taken from
    per-window signals (knee, sustained SLO breach, compare verdict, failure mode).
  - `report.rs`, `calendar.rs`, `text.rs`, `strmap.rs`: HTML escaping, the pixel
    wordmark, UTC timestamps, string helpers and an ordered string map.
- `app/` — the `gust` binary: CLI parsing, the tokio/reqwest load generator,
  the ratatui dashboard, the HTML/JSON report, and the floating-point
  read-outs (percentiles, rates, baselines) that feed the library's decisions.
- `tests/` — integration tests of the library.
