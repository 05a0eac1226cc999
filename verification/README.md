# app_proxy

Per-application proxy control for a Mihomo-based desktop client: which
application command lines are intercepted by the Clew helper, which Mihomo
strategy group each one follows, the managed loopback listeners that carry
those groups, and the lifecycle of the helper that applies the rules.

The library (`src/`) is written in Verus and verified: every function has a
contract, and the properties the controller relies on are proved as lemmas.

- `rules`, `compile`: the rule record, rule validation, and compilation of
  rules into helper proxy groups backed by managed listeners.
- `listeners`: the `listeners` section of Mihomo's runtime configuration as the
  controller edits and reads it.
- `helper`, `status`, `launch`: what the controller records of a running
  helper, how it reads the helper's replies, how it judges readiness, and what
  it writes and passes when it launches one.
- `controller`, `flows`: the decisions of start, rule update and stop, and the
  start and update sequences as state machines.
- `telemetry`, `process_tree`: system TCP connections and the process tree
  shown while no helper runs.
- `text`, `sorted`: character-level and sorted-name helpers.

`app/` is the runtime around the library: Mihomo and helper I/O, files,
processes, Windows system reads, serialization, and the command surface.
`tests/` exercises the library on concrete values.
