//! Local API vs job fairness: how many compute tokens the node hands out and how
//! aggressively queue consumers poll, decided from gateway load and queue depth.
use vstd::prelude::*;

verus! {

/// Consumer knobs published by the workload governor.
#[derive(Debug, Clone, Copy, PartialEq, Eq, Structural)]
pub struct ConsumerTune {
    /// Maximum jobs leased per poll.
    pub batch: usize,
    /// Sleep between polls when the queue is empty, in milliseconds.
    pub idle_sleep_ms: u64,
}

impl Default for ConsumerTune {
    fn default() -> (t: Self)
        ensures
            t.batch == 1,
            t.idle_sleep_ms == 100,
    {
        ConsumerTune { batch: 1, idle_sleep_ms: 100 }
    }
}

/// Builder knobs for the per-node workload governor.
#[derive(Debug, Clone, Copy, PartialEq, Eq, Structural)]
pub struct WorkloadOpts {
    /// Upper bound on concurrent compute holders (gateway + consumers).
    pub max_compute_tokens: usize,
    /// Floor when ingress is hot.
    pub min_compute_tokens: usize,
    /// Active gateway connections at or above which API protection kicks in.
    pub api_protect_connections: usize,
    /// Governor tick interval, in milliseconds.
    pub tick_ms: u64,
    /// Tune when ingress is quiet and work is waiting.
    pub when_opportunistic: ConsumerTune,
    /// Default middle-ground tune.
    pub when_balanced: ConsumerTune,
    /// Tune when ingress is hot.
    pub when_protective: ConsumerTune,
}

/// Compute tokens of the presets: the detected parallelism, or 4 when unknown.
pub open spec fn preset_tokens(parallelism: Option<usize>) -> usize {
    match parallelism {
        Some(n) => n,
        None => 4,
    }
}

/// The balanced preset for a machine with the given parallelism.
pub open spec fn balanced_spec(parallelism: Option<usize>) -> WorkloadOpts {
    WorkloadOpts {
        max_compute_tokens: preset_tokens(parallelism),
        min_compute_tokens: 1,
        api_protect_connections: 32,
        tick_ms: 500,
        when_opportunistic: ConsumerTune { batch: 16, idle_sleep_ms: 10 },
        when_balanced: ConsumerTune { batch: 4, idle_sleep_ms: 100 },
        when_protective: ConsumerTune { batch: 1, idle_sleep_ms: 500 },
    }
}

impl WorkloadOpts {
    /// Default preset: protect API when hot; jobs use slack when ingress is quiet.
    /// `parallelism` is the machine's available parallelism, if it could be read.
    pub fn balanced(parallelism: Option<usize>) -> (o: Self)
        ensures
            o == balanced_spec(parallelism),
    {
        let max_compute_tokens = match parallelism {
            Some(n) => n,
            None => 4,
        };
        WorkloadOpts {
            max_compute_tokens,
            min_compute_tokens: 1,
            api_protect_connections: 32,
            tick_ms: 500,
            when_opportunistic: ConsumerTune { batch: 16, idle_sleep_ms: 10 },
            when_balanced: ConsumerTune { batch: 4, idle_sleep_ms: 100 },
            when_protective: ConsumerTune { batch: 1, idle_sleep_ms: 500 },
        }
    }

    /// Favour API latency — protection kicks in sooner and backs consumers off further.
    pub fn api_first(parallelism: Option<usize>) -> (o: Self)
        ensures
            o == (WorkloadOpts {
                api_protect_connections: 8,
                when_protective: ConsumerTune { batch: 1, idle_sleep_ms: 1000 },
                ..balanced_spec(parallelism)
            }),
    {
        let mut opts = WorkloadOpts::balanced(parallelism);
        opts.api_protect_connections = 8;
        opts.when_protective = ConsumerTune { batch: 1, idle_sleep_ms: 1000 };
        opts
    }

    /// Favour background throughput when ingress is quiet.
    pub fn jobs_opportunistic(parallelism: Option<usize>) -> (o: Self)
        ensures
            o == (WorkloadOpts {
                api_protect_connections: 64,
                when_opportunistic: ConsumerTune { batch: 32, idle_sleep_ms: 5 },
                ..balanced_spec(parallelism)
            }),
    {
        let mut opts = WorkloadOpts::balanced(parallelism);
        opts.api_protect_connections = 64;
        opts.when_opportunistic = ConsumerTune { batch: 32, idle_sleep_ms: 5 };
        opts
    }

    /// Set the process-wide compute token ceiling (at least 1).
    pub fn max_compute_tokens(self, max: usize) -> (o: Self)
        ensures
            o == (WorkloadOpts { max_compute_tokens: if max >= 1 { max } else { 1 }, ..self }),
    {
        let mut s = self;
        s.max_compute_tokens = if max >= 1 { max } else { 1 };
        s
    }

    /// Set the connection count threshold for API protection (at least 1).
    pub fn api_protect_connections(self, connections: usize) -> (o: Self)
        ensures
            o == (WorkloadOpts { api_protect_connections: if connections >= 1 { connections } else { 1 }, ..self }),
    {
        let mut s = self;
        s.api_protect_connections = if connections >= 1 { connections } else { 1 };
        s
    }
}

/// Snapshot emitted to metrics hooks on each governor tick.
#[derive(Debug, Clone, Copy, PartialEq, Eq, Structural)]
pub struct WorkloadMetricsSnapshot {
    /// Tokens currently held.
    pub tokens_in_use: usize,
    /// Current token ceiling after the last governor decision.
    pub token_ceiling: usize,
    /// Active gateway connections.
    pub active_connections: usize,
    /// Sum of `pending` across registered job queues.
    pub queue_depth: u64,
    /// Consumer tune after this tick.
    pub tune: ConsumerTune,
    /// `true` when consumer tune changed this tick.
    pub tune_changed: bool,
}

/// `x` clamped to the `usize` range.
pub open spec fn clamp_usize(x: int) -> int {
    if x > usize::MAX { usize::MAX as int } else if x < 0 { 0 } else { x }
}

pub open spec fn at_least_one(x: int) -> int {
    if x >= 1 { x } else { 1 }
}

/// Token ceiling in the balanced regime: the floor plus the share of the
/// headroom that the remaining connection slack leaves (saturating arithmetic).
pub open spec fn balanced_ceiling(opts: WorkloadOpts, connections: usize) -> int {
    let span = at_least_one(opts.api_protect_connections - 1);
    let pressure = if connections < span { connections as int } else { span };
    let headroom = clamp_usize(opts.max_compute_tokens - opts.min_compute_tokens);
    at_least_one(clamp_usize(opts.min_compute_tokens + clamp_usize(headroom * (span - pressure)) / span))
}

/// The governor's decision for one tick: token ceiling and consumer tune.
pub open spec fn decide_spec(opts: WorkloadOpts, connections: usize, queue_depth: u64) -> (int, ConsumerTune) {
    if connections >= opts.api_protect_connections {
        (at_least_one(opts.min_compute_tokens as int), opts.when_protective)
    } else if connections == 0 && queue_depth > 0 {
        (at_least_one(opts.max_compute_tokens as int), opts.when_opportunistic)
    } else {
        (balanced_ceiling(opts, connections), opts.when_balanced)
    }
}

/// Token ceiling and consumer tune for the observed load: protective when the
/// gateway is hot, opportunistic when it is idle and jobs wait, otherwise a
/// ceiling that shrinks linearly with connection pressure.
pub fn decide(opts: &WorkloadOpts, connections: usize, queue_depth: u64) -> (r: (usize, ConsumerTune))
    ensures
        r.0 as int == decide_spec(*opts, connections, queue_depth).0,
        r.1 == decide_spec(*opts, connections, queue_depth).1,
{
    if connections >= opts.api_protect_connections {
        let t = if opts.min_compute_tokens >= 1 { opts.min_compute_tokens } else { 1 };
        return (t, opts.when_protective);
    }
    if connections == 0 && queue_depth > 0 {
        let t = if opts.max_compute_tokens >= 1 { opts.max_compute_tokens } else { 1 };
        return (t, opts.when_opportunistic);
    }
    let span_raw: usize = if opts.api_protect_connections >= 1 { opts.api_protect_connections - 1 } else { 0 };
    let span: usize = if span_raw >= 1 { span_raw } else { 1 };
    let pressure: usize = if connections < span { connections } else { span };
    let headroom: usize = if opts.max_compute_tokens >= opts.min_compute_tokens {
        opts.max_compute_tokens - opts.min_compute_tokens
    } else {
        0
    };
    let scaled: usize = match headroom.checked_mul(span - pressure) {
        Some(x) => x,
        None => usize::MAX,
    };
    let share: usize = scaled / span;
    let sum: usize = match opts.min_compute_tokens.checked_add(share) {
        Some(x) => x,
        None => usize::MAX,
    };
    let token_ceiling = if sum >= 1 { sum } else { 1 };
    (token_ceiling, opts.when_balanced)
}

/// One governor tick: the decision plus whether the consumer tune changed since
/// the previous tick.
pub fn governor_step(opts: &WorkloadOpts, last_tune: ConsumerTune, connections: usize, queue_depth: u64) -> (r: (
    usize,
    ConsumerTune,
    bool,
))
    ensures
        r.0 as int == decide_spec(*opts, connections, queue_depth).0,
        r.1 == decide_spec(*opts, connections, queue_depth).1,
        r.2 == (r.1 != last_tune),
{
    let (ceiling, tune) = decide(opts, connections, queue_depth);
    let changed = tune != last_tune;
    (ceiling, tune, changed)
}

/// When the floor does not exceed the maximum, the ceiling never drops below
/// one token or below the floor, and never exceeds the maximum (or one token,
/// when the maximum is zero).
pub proof fn law_token_ceiling_in_bounds(opts: WorkloadOpts, connections: usize, queue_depth: u64)
    requires
        opts.min_compute_tokens <= opts.max_compute_tokens,
    ensures
        1 <= decide_spec(opts, connections, queue_depth).0,
        opts.min_compute_tokens <= decide_spec(opts, connections, queue_depth).0,
        decide_spec(opts, connections, queue_depth).0 <= at_least_one(opts.max_compute_tokens as int),
{
    if !(connections >= opts.api_protect_connections) && !(connections == 0 && queue_depth > 0) {
        let span = at_least_one(opts.api_protect_connections - 1);
        let pressure = if connections < span { connections as int } else { span };
        let headroom = opts.max_compute_tokens - opts.min_compute_tokens;
        assert(headroom * (span - pressure) <= headroom * span) by (nonlinear_arith)
            requires
                headroom >= 0,
                0 <= span - pressure <= span,
        ;
        let prod = clamp_usize(headroom * (span - pressure));
        assert(prod / span <= headroom) by (nonlinear_arith)
            requires
                0 <= prod <= headroom * span,
                span >= 1,
                headroom >= 0,
        ;
    }
}

/// More gateway connections never raise the token ceiling.
pub proof fn law_more_connections_never_raise_ceiling(opts: WorkloadOpts, c1: usize, c2: usize, queue_depth: u64)
    requires
        opts.min_compute_tokens <= opts.max_compute_tokens,
        c1 <= c2,
    ensures
        decide_spec(opts, c2, queue_depth).0 <= decide_spec(opts, c1, queue_depth).0,
{
    law_token_ceiling_in_bounds(opts, c1, queue_depth);
    law_token_ceiling_in_bounds(opts, c2, queue_depth);
    let span = at_least_one(opts.api_protect_connections - 1);
    let headroom = opts.max_compute_tokens - opts.min_compute_tokens;
    let p1 = if c1 < span { c1 as int } else { span };
    let p2 = if c2 < span { c2 as int } else { span };
    if !(c2 >= opts.api_protect_connections) && !(c2 == 0 && queue_depth > 0) && !(c1 == 0 && queue_depth > 0) {
        assert(headroom * (span - p2) <= headroom * (span - p1)) by (nonlinear_arith)
            requires
                headroom >= 0,
                0 <= span - p2 <= span - p1,
        ;
        let a = clamp_usize(headroom * (span - p2));
        let b = clamp_usize(headroom * (span - p1));
        assert(a <= b);
        assert(a / span <= b / span) by (nonlinear_arith)
            requires
                0 <= a <= b,
                span >= 1,
        ;
    }
}

} // verus!
