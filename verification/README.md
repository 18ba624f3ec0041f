# portos-kernel

The decision core of a small capability kernel, written in Verus: what a plugin may call, what a
plan may do and under whose consent, what is held and when it is given back.

- `src/` is the library. Its functions state what they return or change, and are proved. Two kinds
  of result are left open: `clock::now_unix` promises nothing of the time, and fresh names and keys
  promise no more than their form.
- `app/` is ordinary Rust around it: files, SQLite, sockets, processes and threads.
- `tests/` runs the library on concrete values.

## Where things are

| What | Modules |
| --- | --- |
| Labels, capabilities, artifacts, consent | `label`, `cap`, `caps`, `artifact`, `cas`, `consent`, `consent_laws`, `digest`, `handle` |
| Plans: language, admission, both interpreters, runs | `plan`, `plan_ir`, `plancheck`, `eval`, `pattern`, `interp`, `run_laws`, `plan_types`, `plan_demand`, `plan_runtime`, `plan_interp`, `plan_laws`, `plan_service`, `plan_lifecycle`, `plan_approval`, `segments` |
| The ledger: records, storage, recovery, retirement | `records`, `frag`, `decode`, `cleanup_codec`, `recovery`, `retirement`, `store`, `cleanup`, `reconcile` |
| The world: processes, lock files, ports | `substrate`, `world`, `clock` |
| The host: plugins, routes, events, requests | `handshake`, `declaration`, `routing`, `events`, `resources`, `grants`, `client`, `host`, `host_cleanup`, `wire` |
| Streams and values | `frame`, `chunk`, `json`, `text`, `digits`, `strmap`, `error`, `egress`, `metrics` |

## What is believed without proof

Calls into `blake3`, `hex`, `rand`, `regex` and `serde_json`, one call of the clock and one of the
`Debug` notation of strings stand behind functions marked `external_body`; the comment above each
says what is claimed of the call. `PlanRuntime`, `EffectExec` and `EgressPolicy` are for users of
the library to implement. The graph of resources itself is kept by a resource manager: the
library takes its answers as arguments, and `app/` reaches it through a trait.
