use vstd::prelude::*;
use crate::cadence::error::CadenceError;

verus! {

/// Where a job is in its life.
#[derive(Debug, Clone, Copy, PartialEq, Eq, Structural)]
pub enum JobStatus {
    Pending,
    Running,
    Completed,
    Failed,
}

/// The number a status is stored as.
pub open spec fn status_code(s: JobStatus) -> i64 {
    match s {
        JobStatus::Pending => 0,
        JobStatus::Running => 1,
        JobStatus::Completed => 2,
        JobStatus::Failed => 3,
    }
}

impl JobStatus {
    /// The status stored as `v`: 0 pending, 1 running, 2 completed, 3 failed; none otherwise.
    pub fn from_i64(v: i64) -> (r: Option<Self>)
        ensures
            r matches Some(s) ==> status_code(s) == v,
            r is None <==> !(0 <= v <= 3),
    {
        match v {
            0 => Some(JobStatus::Pending),
            1 => Some(JobStatus::Running),
            2 => Some(JobStatus::Completed),
            3 => Some(JobStatus::Failed),
            _ => None,
        }
    }

    /// The number this status is stored as.
    pub fn as_i64(&self) -> (v: i64)
        ensures
            v == status_code(*self),
    {
        match self {
            JobStatus::Pending => 0,
            JobStatus::Running => 1,
            JobStatus::Completed => 2,
            JobStatus::Failed => 3,
        }
    }
}

/// Reading a stored status back gives the status; every stored number names at most one status.
pub proof fn lemma_status_roundtrip(s: JobStatus, t: JobStatus)
    ensures
        0 <= status_code(s) <= 3,
        status_code(s) == status_code(t) ==> s == t,
{
}

/// Which jobs a listing returns; `None` fields do not filter.
#[derive(Debug, Clone)]
pub struct ListJobsFilter {
    pub status: Option<JobStatus>,
    pub schedule_id: Option<i64>,
    pub parent_job_id: Option<i64>,
}

impl Default for ListJobsFilter {
    fn default() -> (f: Self)
        ensures
            f.status is None,
            f.schedule_id is None,
            f.parent_job_id is None,
    {
        ListJobsFilter { status: None, schedule_id: None, parent_job_id: None }
    }
}

/// The earliest Unix second whose New York local time a date-time can hold.
pub const MIN_TIMESTAMP: i64 = -8334601228800;

/// The latest Unix second that a date-time can hold.
pub const MAX_TIMESTAMP: i64 = 8210266876799;

/// The next occurrence after `now` of the recurrence rule `rule` for a series
/// starting at `start`, read in New York time: `None` when the rule does not
/// parse or does not validate from `start`, `Some(None)` when it has no
/// occurrence after `now`.
pub uninterp spec fn rrule_next_after(rule: Seq<char>, start: i64, now: i64) -> Option<Option<i64>>;

/// `rule.parse::<rrule::RRule<Unvalidated>>()`, `validate` at `start` in
/// `America/New_York`, then the first date of
/// `RRuleSet::new(start).rrule(..).after(now).all(1)`, as a Unix second. What
/// comes back is named by `rrule_next_after`, not stated.
#[verifier::external_body]
fn rrule_next_occurrence(rule: &str, start: i64, now: i64) -> (r: Option<Option<i64>>)
    requires
        MIN_TIMESTAMP <= start <= MAX_TIMESTAMP,
        MIN_TIMESTAMP <= now <= MAX_TIMESTAMP,
    ensures
        r == rrule_next_after(rule@, start, now),
{
    let tz = rrule::Tz::America__New_York;
    let parsed: rrule::RRule<rrule::Unvalidated> = rule.parse().ok()?;
    let start_at = chrono::DateTime::from_timestamp(start, 0)?.with_timezone(&tz);
    let now_at = chrono::DateTime::from_timestamp(now, 0)?.with_timezone(&tz);
    let validated = parsed.validate(start_at).ok()?;
    let found = rrule::RRuleSet::new(start_at).rrule(validated).after(now_at).all(1);
    Some(found.dates.first().map(|d| d.timestamp()))
}

/// `r` is the next run of a schedule with recurrence rule `rule` from `start`,
/// seen at `now`: the rule's next occurrence when it validates, else an error
/// that names the rule.
pub open spec fn is_next_run(
    rule: Seq<char>,
    start: i64,
    now: i64,
    r: Result<Option<i64>, CadenceError>,
) -> bool {
    match rrule_next_after(rule, start, now) {
        Some(n) => r == Ok::<Option<i64>, CadenceError>(n),
        None => r matches Err(CadenceError::InvalidRRule(m)) && m@ == rule,
    }
}

/// The next run of a schedule with recurrence rule `rule`, given what the
/// rule checker found (`occurrence`, `None` when the rule did not validate).
pub fn next_run_from_occurrence(rule: &str, occurrence: Option<Option<i64>>) -> (r: Result<
    Option<i64>,
    CadenceError,
>)
    ensures
        match occurrence {
            Some(n) => r == Ok::<Option<i64>, CadenceError>(n),
            None => r matches Err(CadenceError::InvalidRRule(m)) && m@ == rule@,
        },
{
    match occurrence {
        Some(n) => Ok(n),
        None => Err(CadenceError::InvalidRRule(rule.to_string())),
    }
}

/// The next occurrence after `now` of recurrence rule `rule` for a series
/// starting at `start` (New York time); `None` when the rule has no more.
pub fn next_run_from_rrule(rule: &str, start: i64, now: i64) -> (r: Result<Option<i64>, CadenceError>)
    requires
        MIN_TIMESTAMP <= start <= MAX_TIMESTAMP,
        MIN_TIMESTAMP <= now <= MAX_TIMESTAMP,
    ensures
        is_next_run(rule@, start, now, r),
{
    let occurrence = rrule_next_occurrence(rule, start, now);
    next_run_from_occurrence(rule, occurrence)
}

/// When a schedule runs next after it has fired: a recurring schedule at the
/// next occurrence of its rule after `now`, a one-shot schedule never again.
pub fn next_run(rule: Option<&str>, start: i64, now: i64) -> (r: Result<Option<i64>, CadenceError>)
    requires
        MIN_TIMESTAMP <= start <= MAX_TIMESTAMP,
        MIN_TIMESTAMP <= now <= MAX_TIMESTAMP,
    ensures
        match rule {
            Some(t) => is_next_run(t@, start, now, r),
            None => r == Ok::<Option<i64>, CadenceError>(None),
        },
{
    match rule {
        Some(t) => next_run_from_rrule(t, start, now),
        None => Ok(None),
    }
}

/// When a schedule first runs: the next occurrence of its recurrence rule
/// after `now` when it has one, else its one-shot time.
pub fn compute_initial_next_run(rule: Option<&str>, start: i64, now: i64, at_unix: Option<i64>) -> (r:
    Result<Option<i64>, CadenceError>)
    requires
        MIN_TIMESTAMP <= start <= MAX_TIMESTAMP,
        MIN_TIMESTAMP <= now <= MAX_TIMESTAMP,
    ensures
        match rule {
            Some(t) => is_next_run(t@, start, now, r),
            None => r == Ok::<Option<i64>, CadenceError>(at_unix),
        },
{
    match rule {
        Some(t) => next_run_from_rrule(t, start, now),
        None => Ok(at_unix),
    }
}

/// The Unix second at which a job delayed by `delay_secs` from `now` is due.
pub fn due_after(now: i64, delay_secs: u64) -> (r: i64)
    requires
        delay_secs <= i64::MAX,
        now + delay_secs <= i64::MAX,
    ensures
        r == now + delay_secs,
{
    now + delay_secs as i64
}

} // verus!
