# zk_scribble

A trace mutation engine for zero-knowledge execution traces. It tampers a
valid witness (flipping bits, injecting out-of-range values, toggling
selectors, swapping, duplicating, zeroing and rewriting rows and columns),
hands the tampered witness to an oracle (the constraint preflight), and
restores the witness afterwards. A tamper that the oracle does not notice is
a hole in the constraints.

Layout:

- `src/` — the verified library (Verus). `trace` models a witness as typed
  columns of raw cells; `apply` gives every mutation its meaning
  (`apply_spec`) and applies it in place; `footprint` states which cells a
  mutation writes and proves it writes no other; `check` snapshots those
  cells, asks the oracle, and restores them; `config` and `strategy` decide
  which mutations random search may generate; `laws` collects algebraic
  properties (truncation to column width, involutions, ...).
- `app/` — the Hekate-facing layer: conversion between Hekate witnesses and
  the model, the preflight oracle, and the proptest-driven search
  (`mutation_strategy`, `assert_all_caught`, `assert_all_caught_all_targets`).
- `tests/` — tests of the library on concrete traces.
