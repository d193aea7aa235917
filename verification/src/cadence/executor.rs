use vstd::prelude::*;
use super::error::CadenceError;

verus! {

/// How a handler's run ended, with the payload kept as JSON text.
pub enum JobOutcome {
    Done,
    Spawn { task_type: String, payload: String, artifact_ref: Option<String>, delay_secs: u64 },
    Retry { after_secs: u64 },
    Failed(CadenceError),
}

/// A child job to queue after its parent.
pub struct CreateChildJob {
    pub parent_id: i64,
    pub task_type: String,
    pub payload: String,
    pub artifact_ref: Option<String>,
    pub delay_secs: u64,
}

/// A change to the job table that settling a job needs.
pub enum JobAction {
    MarkCompleted(i64),
    MarkFailed(i64),
    InsertChild(CreateChildJob),
    Requeue { job_id: i64, after_secs: u64 },
}

/// The kind of each action, for stating what settling does.
pub enum JobActionKind {
    MarkCompleted(i64),
    MarkFailed(i64),
    InsertChild { parent_id: i64, delay_secs: u64 },
    Requeue { job_id: i64, after_secs: u64 },
}

pub open spec fn action_kind(a: JobAction) -> JobActionKind {
    match a {
        JobAction::MarkCompleted(id) => JobActionKind::MarkCompleted(id),
        JobAction::MarkFailed(id) => JobActionKind::MarkFailed(id),
        JobAction::InsertChild(c) => JobActionKind::InsertChild {
            parent_id: c.parent_id,
            delay_secs: c.delay_secs,
        },
        JobAction::Requeue { job_id, after_secs } => JobActionKind::Requeue { job_id, after_secs },
    }
}

/// What settling job `job_id` does: a job without a handler fails; a finished
/// job completes; a spawning job queues its child, then completes; a job asking
/// for a retry goes back to the queue; a failed job fails.
pub open spec fn settle_kinds(job_id: i64, outcome: Option<JobOutcome>) -> Seq<JobActionKind> {
    match outcome {
        None => seq![JobActionKind::MarkFailed(job_id)],
        Some(JobOutcome::Done) => seq![JobActionKind::MarkCompleted(job_id)],
        Some(JobOutcome::Spawn { delay_secs, .. }) => seq![
            JobActionKind::InsertChild { parent_id: job_id, delay_secs },
            JobActionKind::MarkCompleted(job_id),
        ],
        Some(JobOutcome::Retry { after_secs }) => seq![
            JobActionKind::Requeue { job_id, after_secs },
        ],
        Some(JobOutcome::Failed(_)) => seq![JobActionKind::MarkFailed(job_id)],
    }
}

/// The table changes that settle job `job_id` after its handler ran with
/// `outcome` (`None` when no handler is registered for its task type).
pub fn settle_job(job_id: i64, outcome: Option<JobOutcome>) -> (actions: Vec<JobAction>)
    ensures
        actions@.map_values(|a: JobAction| action_kind(a)) == settle_kinds(job_id, outcome),
        forall|i: int|
            0 <= i < actions@.len() ==> (#[trigger] actions@[i] matches JobAction::InsertChild(c)
                ==> outcome matches Some(JobOutcome::Spawn { task_type, payload, artifact_ref, .. })
                && c.task_type == task_type && c.payload == payload && c.artifact_ref
                == artifact_ref),
{
    let ghost o = outcome;
    let actions = match outcome {
        None => vec![JobAction::MarkFailed(job_id)],
        Some(JobOutcome::Done) => vec![JobAction::MarkCompleted(job_id)],
        Some(JobOutcome::Spawn { task_type, payload, artifact_ref, delay_secs }) => {
            let child = CreateChildJob { parent_id: job_id, task_type, payload, artifact_ref, delay_secs };
            vec![JobAction::InsertChild(child), JobAction::MarkCompleted(job_id)]
        },
        Some(JobOutcome::Retry { after_secs }) => vec![JobAction::Requeue { job_id, after_secs }],
        Some(JobOutcome::Failed(_)) => vec![JobAction::MarkFailed(job_id)],
    };
    assert(actions@.map_values(|a: JobAction| action_kind(a)) =~= settle_kinds(job_id, o));
    actions
}

} // verus!
