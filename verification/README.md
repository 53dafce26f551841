# policy-gate

`policy-gate` continuously enforces decisions supplied by an external policy source. It can gate
new work and terminate denied streams when their request or response bodies are next polled.

The rules are a library verified with Verus. Its functions state in their contracts what they return
and what they change, and `src/laws` states and proves what they promise together. Nothing is stated
of a read of the platform's clock, a random number, the description of a gRPC status, and the metric
hooks, which belong to the caller.

## Layout

| Path | Content |
| --- | --- |
| `src/gate.rs` | State of one gate, and each of its steps |
| `src/admitting.rs` | Admission of a subject: connection, lookup, retries, deadline |
| `src/admission.rs` | Handles of admitted subjects |
| `src/entry.rs` | One subject's decision: state, deadline, payload, refresh |
| `src/subjects.rs`, `src/subject_model.rs`, `src/recency.rs` | The bounded map of subjects and its model, over an LRU cache |
| `src/sweep.rs` | Which entries a gate may forget |
| `src/watcher.rs` | The watch over the authority's changes, its backoff and its health |
| `src/stream.rs` | Enforcement on the polls of one body |
| `src/config.rs`, `src/time.rs`, `src/decision.rs`, `src/metrics.rs` | Settings, clock, decisions and metric events |
| `src/grpc.rs`, `src/layer.rs` | Rejections as gRPC statuses, and the messages of the middleware |
| `src/tonic_source.rs`, `src/transform.rs` | The policy-authority protocol, and transformed payloads |
| `src/laws.rs`, `src/laws/`, `src/evolution.rs`, `src/continuity.rs` | What holds of every sequence of steps |
| `tests/` | Scenarios and exact values |
| `app/` | Futures, locks, HTTP bodies and the tonic client around the library |

## Steps

The library does no I/O and reads the clock only to validate a configuration. A step takes the
instant at which it happens, changes the state and says what to wait for. Subjects are numbers; the
application gives each subject value a number for as long as it is cached or in use. What a step
owes to the outside is collected: metric events by `GateState::take_events`, lookups that no longer
count by `GateState::take_aborted`.

An admission runs through `GateState::begin_admission` and, after each wait, the matching
`admit_after_*` step, until it is done. A lookup of the source ends in `settle_lookup` and
`GateState::complete_fetch`. The watch runs through `WatchSession` and `Reconnect`, and an enforced
body through `BodyGuard`.

## Decisions

- A decision is cached until its subject is evicted, withdrawn or idle for longer than
  `subject_ttl`, or the watch goes down. Each makes its handles stale.
- `decision_freshness_ttl` bounds the age of a decision. Ordinary access never extends it; a lookup,
  a refresh and a watch change start it anew. The longest span means that decisions never expire.
- With a nonzero `refresh_before_expiry`, the first cached read within that window before expiry
  starts one background lookup. A failed one may be tried again after `permanent_failure_cooldown`.
- A source may cap a decision and its payload by `valid_until`. A result that already lies inside
  the refresh window waits half its remaining life before it is refreshed.
- No change and no expiry wakes an idle stream: denial, expiry and staleness take effect on the next
  poll of its body.
