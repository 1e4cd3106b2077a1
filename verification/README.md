# stitchd_core

The experimentation core of the Stitchd feature-flag platform, written in
Verus. The library's rules (the experiment lifecycle, flag keys and rollout
bucketing, basis-point apportionment, configuration validation, the
screening and tabulation of interaction grids, the seeded random streams)
are verified functions with contracts. The floating-point statistics live
in `app/`; some of them still make small integer checks of their own, such
as the level counts inside the ANOVA main-effect and three-way terms.

## Layout

* `src/` — the verified library.
  * `id.rs`, `flag.rs`, `hashing.rs` — identifiers, validated flag keys and
    the Murmur3 basis-point bucketing of rollouts.
  * `experimentation/mod.rs` — the experiment lifecycle (transition table,
    iteration creation, mutation guard) and its laws.
  * `experimentation/bandit/` — basis-point apportionment with an
    exploration floor, the contextual feature layout, configuration
    vocabulary and validation order, and the metric lookup of
    multi-objective rewards.
  * `experimentation/stats/` — recommendation rules and winner picking,
    the seeded LCG and xorshift streams, SRM screening, and the integer side
    of cross-experiment interaction analysis (grid tabulation, cell-size
    grids of continuous metrics, collapses, term enumeration, linear
    contrasts, the three-way observed table).
* `tests/` — scenario tests of the library.
* `app/` — the floating-point analyses (frequentist, Bayesian, sequential,
  bandit allocators, ANOVA and log-linear fits), serde wire forms and
  UUID-backed identifiers, built on the verified functions.
