//! Cron-driven recurring jobs: registration, the accepted cron syntax (5 or 6
//! whitespace-separated fields), fire-time queries through the `cron` crate, and
//! the enqueue a due schedule makes.
use vstd::prelude::*;
use vstd::string::{StrSliceExecFns, StringExecFns};

use crate::ids::bytes_to_vec;
use crate::queue::{EnqueueOptions, QueueError, RecurringScheduleWire};

verus! {

#[verifier::external_type_specification]
#[verifier::external_body]
pub struct ExCronSchedule(cron::Schedule);

/// User-facing recurring job registration.
#[derive(Debug, Clone, PartialEq, Eq)]
pub struct RecurringJob {
    /// Unique name within the queue stream.
    pub name: String,
    /// Cron expression (5-field or 6-field).
    pub cron: String,
    /// Payload enqueued on each tick.
    pub payload: Vec<u8>,
    /// Enqueue priority.
    pub priority: u8,
    /// Retry ceiling passed to each enqueued job (`0` = unlimited).
    pub max_attempts: u32,
    /// When false the schedule is stored but does not fire.
    pub enabled: bool,
}

impl RecurringJob {
    /// Recurring job with defaults (enabled, priority 0, unlimited retries).
    pub fn new(name: String, cron: String, payload: Vec<u8>) -> (j: Self)
        ensures
            j.name == name,
            j.cron == cron,
            j.payload == payload,
            j.priority == 0,
            j.max_attempts == 0,
            j.enabled,
    {
        RecurringJob { name, cron, payload, priority: 0, max_attempts: 0, enabled: true }
    }

    /// Set enqueue priority for each tick.
    pub fn priority(self, priority: u8) -> (j: Self)
        ensures
            j == (RecurringJob { priority, ..self }),
    {
        let mut j = self;
        j.priority = priority;
        j
    }

    /// Cap retries for jobs produced by this schedule.
    pub fn max_attempts(self, max: u32) -> (j: Self)
        ensures
            j == (RecurringJob { max_attempts: max, ..self }),
    {
        let mut j = self;
        j.max_attempts = max;
        j
    }

    /// The replicated form, firing next at `next_run_ms`.
    pub fn to_wire(&self, next_run_ms: u64) -> (w: RecurringScheduleWire)
        ensures
            w.name == self.name,
            w.cron == self.cron,
            w.payload@ == self.payload@,
            w.priority == self.priority,
            w.max_attempts == self.max_attempts,
            w.enabled == self.enabled,
            w.next_run_ms == next_run_ms,
    {
        RecurringScheduleWire {
            name: self.name.clone(),
            cron: self.cron.clone(),
            payload: bytes_to_vec(self.payload.as_slice()),
            priority: self.priority,
            max_attempts: self.max_attempts,
            enabled: self.enabled,
            next_run_ms,
        }
    }
}

// ---------------------------------------------------------------------------
// Cron syntax
// ---------------------------------------------------------------------------

/// Unicode `White_Space` (what `char::is_whitespace` tests).
pub open spec fn is_ws(c: char) -> bool {
    ('\t' <= c && c <= '\r') || c == ' ' || c == '\u{85}' || c == '\u{A0}' || c == '\u{1680}' || ('\u{2000}' <= c
        && c <= '\u{200A}') || c == '\u{2028}' || c == '\u{2029}' || c == '\u{202F}' || c == '\u{205F}' || c
        == '\u{3000}'
}

fn is_whitespace(c: char) -> (r: bool)
    ensures
        r == is_ws(c),
{
    ('\t' <= c && c <= '\r') || c == ' ' || c == '\u{85}' || c == '\u{A0}' || c == '\u{1680}' || ('\u{2000}' <= c
        && c <= '\u{200A}') || c == '\u{2028}' || c == '\u{2029}' || c == '\u{202F}' || c == '\u{205F}' || c
        == '\u{3000}'
}

/// The maximal runs of non-whitespace characters of `s`, and whether `s` ends
/// inside one.
pub open spec fn split_ws(s: Seq<char>) -> (Seq<Seq<char>>, bool)
    decreases s.len(),
{
    if s.len() == 0 {
        (Seq::empty(), false)
    } else {
        let (fs, inside) = split_ws(s.drop_last());
        let c = s.last();
        if is_ws(c) {
            (fs, false)
        } else if inside && fs.len() > 0 {
            (fs.update(fs.len() - 1, fs.last().push(c)), true)
        } else {
            (fs.push(seq![c]), true)
        }
    }
}

/// The whitespace-separated fields of `s`.
pub open spec fn fields(s: Seq<char>) -> Seq<Seq<char>> {
    split_ws(s).0
}

/// Fields joined by single spaces.
pub open spec fn join_spaces(fs: Seq<Seq<char>>) -> Seq<char>
    decreases fs.len(),
{
    if fs.len() == 0 {
        Seq::empty()
    } else if fs.len() == 1 {
        fs[0]
    } else {
        join_spaces(fs.drop_last()) + seq![' '] + fs.last()
    }
}

/// The six-field form of a cron expression, or `None` when it has neither 5
/// nor 6 fields (a seconds field `0` is put in front of a 5-field expression).
pub open spec fn normalize_spec(expr: Seq<char>) -> Option<Seq<char>> {
    let fs = fields(expr);
    if fs.len() == 5 {
        Some(seq!['0', ' '] + join_spaces(fs))
    } else if fs.len() == 6 {
        Some(join_spaces(fs))
    } else {
        None
    }
}

/// Decimal digits of `n`.
pub open spec fn decimal(n: nat) -> Seq<char>
    decreases n,
{
    if n < 10 {
        seq![digit_char(n)]
    } else {
        decimal(n / 10).push(digit_char(n % 10))
    }
}

pub open spec fn digit_char(d: nat) -> char {
    if d == 0 { '0' } else if d == 1 { '1' } else if d == 2 { '2' } else if d == 3 { '3' } else if d == 4 {
        '4'
    } else if d == 5 { '5' } else if d == 6 { '6' } else if d == 7 { '7' } else if d == 8 { '8' } else { '9' }
}

fn digit_str(d: usize) -> (s: &'static str)
    requires
        d < 10,
    ensures
        s@ == seq![digit_char(d as nat)],
{
    let all = "0123456789";
    proof {
        reveal_strlit("0123456789");
    }
    all.substring_char(d, d + 1)
}

/// Decimal text of `n`.
pub(crate) fn decimal_text(n: usize) -> (s: String)
    ensures
        s@ == decimal(n as nat),
    decreases n,
{
    if n < 10 {
        String::from_str(digit_str(n))
    } else {
        let mut s = decimal_text(n / 10);
        s.append(digit_str(n % 10));
        s
    }
}

/// Split `expr` at whitespace.
fn split_fields(expr: &str) -> (fs: Vec<String>)
    ensures
        fs@.len() == fields(expr@).len(),
        forall|i: int| 0 <= i < fs@.len() ==> (#[trigger] fs@[i])@ == fields(expr@)[i],
{
    let n = expr.unicode_len();
    let mut fs: Vec<String> = Vec::new();
    let mut inside = false;
    let mut i: usize = 0;
    while i < n
        invariant
            n == expr@.len(),
            0 <= i <= n,
            fs@.len() == split_ws(expr@.subrange(0, i as int)).0.len(),
            forall|k: int| 0 <= k < fs@.len() ==> (#[trigger] fs@[k])@ == split_ws(expr@.subrange(0, i as int)).0[k],
            inside == split_ws(expr@.subrange(0, i as int)).1,
            inside ==> fs@.len() > 0,
        decreases n - i,
    {
        let c = expr.get_char(i);
        let piece = expr.substring_char(i, i + 1);
        let ghost pre = expr@.subrange(0, i as int);
        let ghost nxt = expr@.subrange(0, i + 1);
        proof {
            assert(nxt.drop_last() =~= pre);
            assert(nxt.last() == c);
            assert(piece@ =~= seq![c]);
        }
        if is_whitespace(c) {
            inside = false;
        } else if inside {
            let last = fs.len() - 1;
            let ghost before = fs@;
            let mut cur = fs.remove(last);
            cur.append(piece);
            fs.push(cur);
            proof {
                let old_fs = split_ws(pre).0;
                assert(fs@ =~= before.update(last as int, cur));
                assert(split_ws(nxt).0 == old_fs.update(old_fs.len() - 1, old_fs.last().push(c)));
                assert forall|k: int| 0 <= k < fs@.len() implies (#[trigger] fs@[k])@ == split_ws(nxt).0[k] by {
                    if k < last {
                        assert(fs@[k] == before[k]);
                    } else {
                        assert(fs@[k] == cur);
                        assert(before[k]@ == old_fs.last());
                        assert(cur@ =~= old_fs.last().push(c));
                    }
                }
            }
        } else {
            fs.push(String::from_str(piece));
            inside = true;
        }
        i = i + 1;
    }
    proof {
        assert(expr@.subrange(0, n as int) =~= expr@);
    }
    fs
}

/// Fields joined by single spaces.
fn join_fields(fs: &Vec<String>) -> (s: String)
    ensures
        s@ == join_spaces(fs@.map_values(|f: String| f@)),
{
    let ghost v = fs@.map_values(|f: String| f@);
    let mut out = String::new();
    let mut i: usize = 0;
    while i < fs.len()
        invariant
            0 <= i <= fs@.len(),
            v == fs@.map_values(|f: String| f@),
            out@ == join_spaces(v.subrange(0, i as int)),
        decreases fs@.len() - i,
    {
        proof {
            let next = v.subrange(0, i + 1);
            assert(next.drop_last() =~= v.subrange(0, i as int));
            assert(next.last() == fs@[i as int]@);
        }
        if i > 0 {
            out.append(" ");
            proof {
                reveal_strlit(" ");
            }
        }
        out.append(fs[i].as_str());
        proof {
            let next = v.subrange(0, i + 1);
            if i == 0 {
                assert(next =~= seq![fs@[0]@]);
                assert(out@ =~= join_spaces(next));
            } else {
                assert(out@ =~= join_spaces(next));
            }
        }
        i = i + 1;
    }
    proof {
        assert(v.subrange(0, fs@.len() as int) =~= v);
    }
    out
}

/// Bring a 5- or 6-field cron expression to the 6-field form the `cron` crate
/// parses; any other field count is refused with a codec error naming it.
pub fn normalize_cron(expr: &str) -> (r: Result<String, QueueError>)
    ensures
        match normalize_spec(expr@) {
            Some(t) => r matches Ok(s) && s@ == t,
            None => r matches Err(QueueError::Codec(m)) && m@ == "cron expression needs 5 or 6 fields, got "@
                + decimal(fields(expr@).len()),
        },
{
    let fs = split_fields(expr);
    proof {
        assert(fs@.map_values(|f: String| f@) =~= fields(expr@));
    }
    let n = fs.len();
    if n == 5 {
        let mut out = String::from_str("0 ");
        let joined = join_fields(&fs);
        out.append(joined.as_str());
        proof {
            reveal_strlit("0 ");
            assert(out@ =~= seq!['0', ' '] + join_spaces(fields(expr@)));
        }
        Ok(out)
    } else if n == 6 {
        Ok(join_fields(&fs))
    } else {
        let mut m = String::from_str("cron expression needs 5 or 6 fields, got ");
        let d = decimal_text(n);
        m.append(d.as_str());
        Err(QueueError::Codec(m))
    }
}

/// A cron schedule together with the six-field expression it was parsed from.
pub struct CronSchedule {
    expr: String,
    schedule: cron::Schedule,
}

impl View for CronSchedule {
    type V = Seq<char>;

    /// The six-field expression the schedule was parsed from.
    closed spec fn view(&self) -> Seq<char> {
        self.expr@
    }
}

impl CronSchedule {
    /// The `cron` crate's schedule held for the expression.
    pub closed spec fn parsed(&self) -> cron::Schedule {
        self.schedule
    }

    /// The parsed schedule.
    pub fn schedule(&self) -> (r: &cron::Schedule)
        ensures
            *r == self.parsed(),
    {
        &self.schedule
    }
}

/// Whether the `cron` crate accepts the six-field expression `expr`.
pub uninterp spec fn cron_accepts(expr: Seq<char>) -> bool;

/// First fire time, in unix milliseconds, that the `cron` crate gives for the
/// schedule parsed from `expr` when asked for the times after `after_ms`.
pub uninterp spec fn cron_next_fire(expr: Seq<char>, after_ms: i64) -> Option<i64>;

/// `cron::Schedule::from_str`: a schedule exactly when the crate accepts the
/// expression, otherwise the crate's error text.
#[verifier::external_body]
fn cron_parse(expr: &str) -> (r: Result<cron::Schedule, String>)
    ensures
        r is Ok <==> cron_accepts(expr@),
{
    match <cron::Schedule as std::str::FromStr>::from_str(expr) {
        Ok(s) => Ok(s),
        Err(e) => Err(e.to_string()),
    }
}

/// `cron::Schedule::after(..).next()` on the instant `after_ms` (as a UTC
/// `chrono::DateTime`), read back as unix milliseconds. `None` when the crate
/// has no later fire time or the instant is outside `chrono`'s range. The
/// crate starts its search one second after the instant with a panicking `+`,
/// so the instant must lie a second or more below `chrono`'s last instant.
#[verifier::external_body]
fn cron_next_after(s: &CronSchedule, after_ms: i64) -> (r: Option<i64>)
    requires
        after_ms < CHRONO_LAST_QUERY_MS,
    ensures
        r == cron_next_fire(s@, after_ms),
{
    let after = chrono::DateTime::from_timestamp_millis(after_ms)?;
    s.schedule.after(&after).next().map(|t| t.timestamp_millis())
}

/// Parse a cron expression — 5-field (`min hour dom month dow`) or 6-field
/// (`sec min hour dom month dow`) syntax.
pub fn parse_cron(expr: &str) -> (r: Result<CronSchedule, QueueError>)
    ensures
        match normalize_spec(expr@) {
            Some(t) => {
                &&& (r is Ok <==> cron_accepts(t))
                &&& (r matches Ok(s) ==> s@ == t)
                &&& (r is Err ==> r matches Err(QueueError::Codec(_)))
            },
            None => r matches Err(QueueError::Codec(m)) && m@ == "cron expression needs 5 or 6 fields, got "@
                + decimal(fields(expr@).len()),
        },
{
    let normalized = match normalize_cron(expr) {
        Ok(n) => n,
        Err(e) => {
            return Err(e);
        },
    };
    match cron_parse(normalized.as_str()) {
        Ok(schedule) => Ok(CronSchedule { expr: normalized, schedule }),
        Err(m) => Err(QueueError::Codec(m)),
    }
}

/// The instant the fire-time query starts from: one millisecond after
/// `after_ms` (capped to the `i64` range).
pub open spec fn query_ms(after_ms: u64) -> i64 {
    if after_ms >= i64::MAX { i64::MAX } else { (after_ms + 1) as i64 }
}

/// First unix millisecond from which `chrono` cannot move one second forward:
/// one second below its last instant (year 262142, December 31, 23:59:59.999).
pub const CHRONO_LAST_QUERY_MS: i64 = 8210266876799000;

/// Largest-plus-one `after_ms` a fire-time query accepts (the query starts one
/// millisecond later and must stay below [`CHRONO_LAST_QUERY_MS`]).
pub const CRON_QUERY_LIMIT_MS: u64 = 8210266876798999;

/// Next fire time of `schedule` after `after_ms`, in unix milliseconds (times
/// before the epoch read as 0); a codec error when there is none.
pub fn next_run_after(schedule: &CronSchedule, after_ms: u64) -> (r: Result<u64, QueueError>)
    requires
        after_ms < CRON_QUERY_LIMIT_MS,
    ensures
        match cron_next_fire(schedule@, query_ms(after_ms)) {
            Some(t) => r == Ok::<u64, QueueError>(if t < 0 { 0 } else { t as u64 }),
            None => r matches Err(QueueError::Codec(_)),
        },
{
    let q: i64 = (after_ms + 1) as i64;
    match cron_next_after(schedule, q) {
        Some(t) => Ok(if t < 0 { 0 } else { t as u64 }),
        None => Err(QueueError::Codec(String::from_str("cron schedule has no upcoming fire time"))),
    }
}

/// A stored schedule fires when it is enabled and its next run time has come.
pub fn schedule_is_due(schedule: &RecurringScheduleWire, now_ms: u64) -> (r: bool)
    ensures
        r == (schedule.enabled && schedule.next_run_ms <= now_ms),
{
    schedule.enabled && schedule.next_run_ms <= now_ms
}

/// Dedup key of the job a schedule enqueues: `recurring:` and the schedule name,
/// so a tick replayed after a failover enqueues nothing twice.
pub fn recurring_dedup_key(name: &String) -> (k: Vec<u8>)
    ensures
        k@ == vstd::utf8::encode_utf8("recurring:"@ + name@),
{
    let mut s = String::from_str("recurring:");
    s.append(name.as_str());
    crate::bytes::string_bytes(&s)
}

/// Enqueue options of the job a due schedule produces.
pub fn tick_enqueue_options(schedule: &RecurringScheduleWire) -> (o: EnqueueOptions)
    ensures
        o.priority == schedule.priority,
        o.not_before_ms is None,
        o.shard_key is None,
        o.dedup_key matches Some(k) && k@ == vstd::utf8::encode_utf8("recurring:"@ + schedule.name@),
        o.max_attempts == schedule.max_attempts,
{
    EnqueueOptions {
        priority: schedule.priority,
        not_before_ms: None,
        shard_key: None,
        dedup_key: Some(recurring_dedup_key(&schedule.name)),
        max_attempts: schedule.max_attempts,
    }
}

} // verus!
