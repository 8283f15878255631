# crafty

The deterministic core of a Raft + actor cluster framework, written in Verus:
every data structure, state machine and decision rule carries a contract that
Verus proves.

## Layout

- `src/` — the verified library.
  - Replicated state machines: `kv` (key/value store with snapshot format),
    `upgrade` (rolling self-update coordinator), `meta`, `autoscale`
    (policy registry and scaling decisions).
  - Job queue: `queue` (options, retry rule), `job_queue` (in-memory queue with
    replication ops), `sharded`, `sharded_queue` (shard routing and federation),
    `prefetch`, `lifecycle`, `schedule` / `schedule_tick` (cron-driven recurring
    jobs), `outbox` (backlog settle outbox).
  - Event topics: `topic`, `event_topic` (publish / lease / ack / nack,
    retention, replication).
  - Workflows: `saga`, `two_phase` (coordinators as state machines driven by
    the caller), `batch`.
  - Cluster planning: `membership` (voter replacement), `compaction`,
    `workload` (governor), `compute` (token pool), `registry` (placement and
    restart-supervision rules),
    `views`.
  - Laws relating several operations live in `queue_laws`, `event_topic_laws`,
    `upgrade_laws` and beside the functions they speak of (`law_*`).
- `tests/` — executable tests of the library.
- `app/` — the unverified shell: async loops, TLS setup, serde/thiserror copies
  of library types, and the drivers that perform the calls the verified
  coordinators ask for.

Outside crates are reached only through trusted items in `src/queue.rs`,
`src/bytes.rs` and `src/schedule.rs` (clock, UTF-8 decoding, cron parsing and
next-fire computation); their doc comments say what is assumed.
