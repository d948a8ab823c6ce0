# daft — verified core of a multi-dimension version control tool

`daft` keeps several parallel "dimensions" of a repository side by side and
lets people and AI agents work in them at once. This crate holds the logic
of its coordination layer, written in Verus and proved against its
contracts:

- `agent/` — agent identities and name rules, the registry (register,
  assign, look up, load with legacy records), heartbeats and liveness,
  message ids and mailbox deliveries, the inbox (merge, filter, stable sort
  by time) and the swarm status report.
- `territory/` — glob matching, and the exact test whether two path
  patterns match a common path (a search over both patterns at once), claims and
  fences with time-to-live, the decisions of claiming, yielding and
  unfencing, staging and commit checks against hard fences, the audit, the
  lock's give-up rule and message, and loading claims and fences in order
  of creation.
- `observe.rs`, `radar.rs`, `foresee.rs`, `entropy.rs` — awareness: the
  status of a dimension against its index and last commit, the files a
  dimension shows (commit, index and working tree overlaid), which paths
  several dimensions change at once (hot zones) and how a watch reports
  them, three-way conflict prediction from line diffs, and the integer side
  of the entropy between two dimensions.
- `timeline/` — the multiverse graph of dimensions and commits and its
  renderings (terminal lanes, ancestry tree, DOT, SVG).
- `commands/`, `cli.rs` — the decisions behind the command line: reading
  subcommands and their options, and what each command asks of the engine.
- `clock.rs`, `text.rs`, `select.rs` — times as plain numbers, text helpers
  with exact specifications, and filtering sequences.

Calls into `chrono` and a few standard-library functions whose results are
not specified by `vstd` stand behind small trusted wrappers; each states what
the library relies on.

`app/` is the command-line program around the library: argument parsing
with `clap`, JSON files with `serde`, the file system, the territory lock and
the floating-point entropy score. Commands that need the repository's
version store or the synchronisation engine report that this build does not
include them.
