//! Verified core of the crafty cluster framework: job queues, topics,
//! consensus-side state machines and the pure planners around them.
pub mod ids;
pub mod keyed;
pub mod queue;
pub mod job_queue;
pub mod queue_laws;
pub mod prefetch;
pub mod bytes;
pub mod kv;
pub mod nodes;
pub mod upgrade;
pub mod upgrade_laws;
pub mod compaction;
pub mod membership;
pub mod workload;
pub mod meta;
pub mod lifecycle;
pub mod views;
pub mod autoscale;
pub mod outbox;
pub mod registry;
pub mod topic;
pub mod schedule;
pub mod schedule_tick;
pub mod sharded;
pub mod sharded_queue;
pub mod saga;
pub mod two_phase;
pub mod compute;
pub mod batch;
pub mod retain;
pub mod event_topic;
pub mod event_topic_laws;
