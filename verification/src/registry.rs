//! Actor registry vocabulary: the errors its operations report, supervision and
//! placement settings, group statistics, and the instance-count rules of
//! spawning and scaling.
use vstd::prelude::*;
use vstd::string::to_string_from_display_ensures;

use std::time::Duration;

verus! {

/// Why a spawn failed.
#[derive(Debug, Clone, PartialEq, Eq)]
pub enum SpawnError {
    /// An actor group with this name already exists.
    NameExists(String),
    /// A pool count above one was requested in production mode, which allows at
    /// most one worker per node per name.
    MultiWorkerDisabled {
        /// The rejected instance count.
        count: usize,
    },
    /// The requested instance count was zero.
    ZeroCount,
    /// No spawn factory is registered for the requested actor type.
    UnknownType(String),
    /// The actor's config could not be decoded for a remote spawn.
    Config(ConfigCodecError),
    /// Starting an instance failed; the message of the start error.
    Start(String),
    /// Installing a migration snapshot on the target node failed.
    Restore(MigrationError),
}

/// Why a local scale failed.
#[derive(Debug, Clone, PartialEq, Eq)]
pub enum ScaleError {
    /// No actor group with this name exists.
    NotFound(String),
    /// The group exists but holds a different actor type than requested.
    TypeMismatch {
        /// The group name.
        name: String,
        /// The type the group was registered with.
        registered: String,
    },
    /// A count above one was requested in production mode.
    MultiWorkerDisabled {
        /// The rejected instance count.
        count: usize,
    },
    /// A cluster-wide `total` cannot be placed one-per-node because there are
    /// fewer live nodes than instances requested.
    InsufficientNodes {
        /// The requested cluster-wide total.
        total: usize,
        /// The number of live nodes available.
        nodes: usize,
    },
    /// The requested instance count was zero (stop the group instead).
    ZeroCount,
    /// Starting an instance failed while growing the pool; the error's message.
    Start(String),
}

/// Why a stop failed.
#[derive(Debug, Clone, PartialEq, Eq)]
pub enum StopError {
    /// No actor group with this name exists.
    NotFound(String),
}

/// Why a message could not be routed to an instance.
#[derive(Debug, Clone, Copy, PartialEq, Eq, Structural)]
pub enum SendError {
    /// The group currently has no live instances.
    NoInstances,
    /// The selected instance's mailbox is closed (it stopped).
    Closed,
    /// The group is draining for stop/migration and rejects new messages.
    Draining,
}

/// Supervision policy for an instance whose handler returns an error.
#[derive(Debug, Clone, Copy, PartialEq, Eq)]
pub enum RestartPolicy {
    /// Never restart: handler errors are non-fatal and the instance keeps its state.
    Never,
    /// Restart on failure, bounded to `max_restarts` within a sliding window;
    /// exceeding the budget stops the instance.
    OnFailure {
        /// Maximum restarts allowed inside the window before escalation.
        max_restarts: u32,
        /// Sliding window over which restarts are counted, in milliseconds.
        window_ms: u64,
    },
    /// Always restart with fresh state on every handler error.
    Always,
}

impl Default for RestartPolicy {
    fn default() -> (p: Self)
        ensures
            p is Never,
    {
        RestartPolicy::Never
    }
}

/// The outcome of a graceful drain.
#[derive(Debug, Clone, Copy, PartialEq, Eq, Structural)]
pub enum DrainOutcome {
    /// Every in-flight and queued message finished before the timeout.
    Completed,
    /// The timeout elapsed with work still in flight; the actor was force stopped.
    TimedOut,
}

/// An error while capturing a migration snapshot from a live actor.
#[derive(Debug, Clone, PartialEq, Eq)]
pub enum SnapshotError {
    /// The requested instance is not live in the group.
    NoInstance(u32),
    /// The instance stopped before it could produce a snapshot.
    Closed,
    /// Capturing the actor's migration state failed.
    Migration(MigrationError),
}

/// A failure capturing or applying a migratable actor's state.
#[derive(Debug, Clone, PartialEq, Eq)]
pub struct MigrationError(pub String);

impl MigrationError {
    /// Build a migration error from any displayable cause: its display text.
    pub fn new<D: std::fmt::Display>(cause: D) -> (e: Self)
        ensures
            to_string_from_display_ensures::<D>(&cause, e.0),
    {
        MigrationError(cause.to_string())
    }
}

/// Why an actor's config could not be (de)serialized for a remote spawn.
#[derive(Debug, Clone, PartialEq, Eq)]
pub enum ConfigCodecError {
    /// The actor can only be spawned locally.
    NotSpawnable,
    /// The config could not be encoded/decoded.
    Codec(String),
}

/// Why a wire payload could not be turned into a message.
#[derive(Debug, Clone, PartialEq, Eq)]
pub enum MessageDecodeError {
    /// The actor accepts only in-process messages.
    NotAddressable,
    /// The payload could not be decoded into the actor's message type.
    Decode(String),
}

/// Why a cross-node delivery to a local instance failed.
#[derive(Debug, Clone, PartialEq, Eq)]
pub enum DeliverError {
    /// No actor group with this name exists on this node.
    NotFound(String),
    /// The payload could not be decoded into the actor's message type.
    Decode(MessageDecodeError),
    /// The target instance id is not live in the group (stopped / migrated).
    NoInstance(u32),
    /// The target instance's mailbox is closed.
    Closed,
    /// The group is draining for stop/migration and rejects new messages.
    Draining,
}

/// Why an `ask` failed.
#[derive(Debug, Clone, Copy, PartialEq, Eq)]
pub enum AskError {
    /// The request could not be delivered.
    Send(SendError),
    /// The actor handled (or dropped) the message without replying.
    NoReply,
    /// No reply arrived within the given time.
    Timeout(Duration),
}

/// Observes actor lifecycle transitions so a telemetry layer can surface them.
pub trait ActorObserver {
    /// A fresh instance of `name` started.
    fn on_spawned(&self, name: &str, instance: u32) {
    }

    /// An instance stopped for a non-escalation reason.
    fn on_stopped(&self, name: &str, instance: u32) {
    }

    /// An instance finished handling one message in `elapsed`.
    fn on_message_handled(&self, name: &str, instance: u32, elapsed: Duration) {
    }

    /// A supervised instance rebuilt fresh state after a handler failure;
    /// `count` is the group's cumulative restart tally after this restart.
    fn on_restart(&self, name: &str, instance: u32, count: u32);

    /// A supervised instance exhausted its restart budget and stopped.
    fn on_escalated(&self, name: &str, instance: u32);
}

/// A point-in-time snapshot of one actor group's runtime counters.
#[derive(Debug, Clone, PartialEq, Eq)]
pub struct ActorGroupStats {
    /// The group's registered name.
    pub name: String,
    /// Live instance count.
    pub instances: usize,
    /// Cumulative messages handled across the group's instances.
    pub messages: u64,
    /// Cumulative wall-time spent in `handle`, in nanoseconds.
    pub handle_nanos: u64,
    /// Currently-queued (enqueued but not yet handled) messages.
    pub mailbox_depth: i64,
}

/// What a supervised instance does after its handler returned an error.
#[derive(Debug, Clone, Copy, PartialEq, Eq, Structural)]
pub enum SupervisionStep {
    /// Keep the instance and its current state.
    Continue,
    /// Replace the state with the freshly rebuilt one and count a restart.
    Restart,
    /// Stop the instance: it cannot be rebuilt or its restart budget is spent.
    Escalate,
}

/// Milliseconds from `t` to `now_ms` (zero when `t` is later).
pub open spec fn restart_age(now_ms: u64, t: u64) -> int {
    if now_ms >= t { now_ms - t } else { 0 }
}

/// The restart times still inside the window at `now_ms`, in their order.
pub open spec fn recent_restarts(history: Seq<u64>, now_ms: u64, window_ms: u64) -> Seq<u64>
    decreases history.len(),
{
    if history.len() == 0 {
        history
    } else {
        let r = recent_restarts(history.drop_last(), now_ms, window_ms);
        if restart_age(now_ms, history.last()) < window_ms { r.push(history.last()) } else { r }
    }
}

/// The supervision rule for one handler error: the new restart history and the step.
pub open spec fn supervision(policy: RestartPolicy, history: Seq<u64>, now_ms: u64, rebuilt: bool) -> (Seq<u64>, SupervisionStep) {
    match policy {
        RestartPolicy::Never => (history, SupervisionStep::Continue),
        RestartPolicy::Always => (history, if rebuilt { SupervisionStep::Restart } else { SupervisionStep::Escalate }),
        RestartPolicy::OnFailure { max_restarts, window_ms } => {
            let kept = recent_restarts(history, now_ms, window_ms);
            if kept.len() < max_restarts && rebuilt {
                (kept.push(now_ms), SupervisionStep::Restart)
            } else {
                (kept, SupervisionStep::Escalate)
            }
        },
    }
}

/// Decide what a supervised instance does after a handler error at `now_ms`.
/// `history_ms` holds the times of its earlier restarts and `rebuilt` whether
/// fresh state could be built: `Never` keeps the instance as it is; `Always`
/// restarts whenever fresh state exists; `OnFailure` forgets restarts older than
/// the window and restarts (recording `now_ms`) while fewer than `max_restarts`
/// remain, escalating otherwise.
pub fn on_handler_error(policy: RestartPolicy, history_ms: &Vec<u64>, now_ms: u64, rebuilt: bool) -> (r: (
    Vec<u64>,
    SupervisionStep,
))
    ensures
        (r.0@, r.1) == supervision(policy, history_ms@, now_ms, rebuilt),
{
    match policy {
        RestartPolicy::Never => (history_ms.clone(), SupervisionStep::Continue),
        RestartPolicy::Always => (history_ms.clone(), if rebuilt { SupervisionStep::Restart } else { SupervisionStep::Escalate }),
        RestartPolicy::OnFailure { max_restarts, window_ms } => {
            let mut kept: Vec<u64> = Vec::new();
            let mut i: usize = 0;
            while i < history_ms.len()
                invariant
                    0 <= i <= history_ms@.len(),
                    kept@ == recent_restarts(history_ms@.take(i as int), now_ms, window_ms),
                decreases history_ms@.len() - i,
            {
                let t = history_ms[i];
                let age: u64 = if now_ms >= t { now_ms - t } else { 0 };
                proof {
                    assert(history_ms@.take(i + 1).drop_last() =~= history_ms@.take(i as int));
                }
                if age < window_ms {
                    kept.push(t);
                }
                i = i + 1;
            }
            proof {
                assert(history_ms@.take(history_ms@.len() as int) =~= history_ms@);
            }
            if kept.len() < max_restarts as usize && rebuilt {
                kept.push(now_ms);
                (kept, SupervisionStep::Restart)
            } else {
                (kept, SupervisionStep::Escalate)
            }
        },
    }
}

/// How the registry places worker instances on this node.
#[derive(Debug, Clone, Copy, PartialEq, Eq, Structural)]
pub enum PlacementMode {
    /// Production default: at most one worker per node per name.
    Production,
    /// Development: multiple local instances per name are permitted.
    DevelopmentMulti,
}

/// The placement mode of a registry built with or without the development flag.
pub fn placement_mode(dev_multi_workers: bool) -> (m: PlacementMode)
    ensures
        m == (if dev_multi_workers { PlacementMode::DevelopmentMulti } else { PlacementMode::Production }),
{
    if dev_multi_workers {
        PlacementMode::DevelopmentMulti
    } else {
        PlacementMode::Production
    }
}

/// Instance count accepted by a local spawn: at least one, and one at most in
/// production mode.
pub fn check_spawn_count(count: usize, mode: PlacementMode) -> (r: Result<(), SpawnError>)
    ensures
        count == 0 ==> r == Err::<(), SpawnError>(SpawnError::ZeroCount),
        count > 1 && mode is Production ==> r == Err::<(), SpawnError>(SpawnError::MultiWorkerDisabled { count }),
        (count == 1 || (count > 1 && mode is DevelopmentMulti)) ==> r is Ok,
{
    if count == 0 {
        return Err(SpawnError::ZeroCount);
    }
    if count > 1 && mode == PlacementMode::Production {
        return Err(SpawnError::MultiWorkerDisabled { count });
    }
    Ok(())
}

/// Instance count accepted by a local scale: at least one, and one at most in
/// production mode.
pub fn check_scale_count(count: usize, mode: PlacementMode) -> (r: Result<(), ScaleError>)
    ensures
        count == 0 ==> r == Err::<(), ScaleError>(ScaleError::ZeroCount),
        count > 1 && mode is Production ==> r == Err::<(), ScaleError>(ScaleError::MultiWorkerDisabled { count }),
        (count == 1 || (count > 1 && mode is DevelopmentMulti)) ==> r is Ok,
{
    if count == 0 {
        return Err(ScaleError::ZeroCount);
    }
    if count > 1 && mode == PlacementMode::Production {
        return Err(ScaleError::MultiWorkerDisabled { count });
    }
    Ok(())
}

} // verus!
