# Fulcrum

A typed move algebra for load-balancing invariants, verified with Verus.

A fleet of machines carries an N-dimensional load and capacity per machine.
Moves of mass are classified by their effect on utilization (load ÷
capacity): removals and Pigou-Dalton transfers (`HotToCold`) keep a
worst-utilization bound without a recheck; placements and anti-Robin-Hood
migrations (`Place`, `ColdToHot`) need one.

## Layout

- `src/` — the verified library. Utilization is compared exactly, as
  fractions. It holds the fleet and its bookkeeping (`load`), the move kinds
  and their admissibility witnesses (`move_kind`), the laws of the algebra
  (`laws`), the reference planners' decisions (`planner`), the move history
  (`trace`), the Borg-trace classifier and trace reader (`replay`, `borg_row`,
  `trace_csv`), the seeded
  workload stream of the cluster twin (`twin`, `rng`) and the
  controller/agent protocol (`proto`, `controller`).
- `app/` — what stays outside the proofs: `f64` gauge and power evaluation,
  the `Safe` typestate built on them, the planner trait, the cluster twin
  driver, the controller's loop over sled-agents, and reading trace files.
- `tests/` — behaviour tests of the library.
