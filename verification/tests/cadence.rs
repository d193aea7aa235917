use nara::cadence::channels::{Artifact, ChannelRegistry};
use nara::cadence::database::{
    compute_initial_next_run, due_after, next_run, next_run_from_occurrence, next_run_from_rrule, JobStatus,
    ListJobsFilter,
};
use nara::cadence::error::CadenceError;
use nara::cadence::executor::{settle_job, JobAction, JobOutcome};
use nara::cadence::registry::{SpawnRequest, TaskRegistry};
use nara::konan::print_ops::{KonanPrintChannel, PrintFileTask, CHANNEL_PRINT, TASK_FILE_BUILD};
use nara::titans_tower::channel::DiscordChannel;

#[test]
fn job_status_numbers_round_trip() {
    for s in [JobStatus::Pending, JobStatus::Running, JobStatus::Completed, JobStatus::Failed] {
        assert_eq!(JobStatus::from_i64(s.as_i64()), Some(s));
    }
    assert_eq!(JobStatus::Completed.as_i64(), 2);
    assert_eq!(JobStatus::from_i64(4), None);
    assert_eq!(JobStatus::from_i64(-1), None);
}

#[test]
fn list_filter_default_filters_nothing() {
    let f = ListJobsFilter::default();
    assert!(f.status.is_none() && f.schedule_id.is_none() && f.parent_job_id.is_none());
}

#[test]
fn settling_jobs() {
    assert!(matches!(settle_job(1, None)[..], [JobAction::MarkFailed(1)]));
    assert!(matches!(settle_job(2, Some(JobOutcome::Done))[..], [JobAction::MarkCompleted(2)]));
    assert!(matches!(
        settle_job(3, Some(JobOutcome::Retry { after_secs: 30 }))[..],
        [JobAction::Requeue { job_id: 3, after_secs: 30 }]
    ));
    assert!(matches!(
        settle_job(4, Some(JobOutcome::Failed(CadenceError::NoChannel)))[..],
        [JobAction::MarkFailed(4)]
    ));
    let actions = settle_job(
        5,
        Some(JobOutcome::Spawn {
            task_type: "t".into(),
            payload: "{}".into(),
            artifact_ref: Some("a".into()),
            delay_secs: 9,
        }),
    );
    match &actions[..] {
        [JobAction::InsertChild(c), JobAction::MarkCompleted(5)] => {
            assert_eq!((c.parent_id, c.task_type.as_str(), c.payload.as_str()), (5, "t", "{}"));
            assert_eq!((c.artifact_ref.as_deref(), c.delay_secs), (Some("a"), 9));
        }
        _ => panic!("a spawning job queues its child, then completes"),
    }
}

#[test]
fn schedule_times() {
    assert_eq!(compute_initial_next_run(None, 0, 0, Some(10)), Ok(Some(10)));
    assert_eq!(compute_initial_next_run(None, 0, 0, None), Ok(None));
    assert_eq!(next_run(None, 0, 0), Ok(None));
    assert_eq!(next_run_from_occurrence("FREQ=DAILY", Some(Some(20))), Ok(Some(20)));
    assert_eq!(next_run_from_occurrence("FREQ=DAILY", Some(None)), Ok(None));
    assert_eq!(
        next_run_from_occurrence("FREQ=SOMETIMES", None),
        Err(CadenceError::InvalidRRule("FREQ=SOMETIMES".to_string()))
    );
    assert_eq!(due_after(100, 20), 120);
}

// 2023-11-14 17:13:20 in New York; no clock change in the days after.
const START: i64 = 1_700_000_000;
const DAY: i64 = 86_400;

#[test]
fn a_daily_rule_runs_next_on_the_following_day() {
    let rule = "FREQ=DAILY;COUNT=3";
    assert_eq!(next_run_from_rrule(rule, START, START + 1), Ok(Some(START + DAY)));
    assert_eq!(next_run(Some(rule), START, START + DAY + 1), Ok(Some(START + 2 * DAY)));
    assert_eq!(compute_initial_next_run(Some(rule), START, START + 1, Some(5)), Ok(Some(START + DAY)));
}

#[test]
fn a_finished_rule_runs_no_more() {
    assert_eq!(next_run(Some("FREQ=DAILY;COUNT=3"), START, START + 2 * DAY + 1), Ok(None));
}

#[test]
fn a_rule_that_does_not_parse_is_an_error() {
    assert_eq!(
        next_run(Some("FREQ=SOMETIMES"), START, START),
        Err(CadenceError::InvalidRRule("FREQ=SOMETIMES".to_string()))
    );
    assert_eq!(
        compute_initial_next_run(Some("not a rule"), START, START, Some(5)),
        Err(CadenceError::InvalidRRule("not a rule".to_string()))
    );
    assert_eq!(CadenceError::InvalidRRule("x".to_string()).message(), "invalid rrule: x");
}

#[test]
fn spawn_requests_carry_the_task_type() {
    let task = PrintFileTask { file_name: "a.md".into(), rows: None };
    let r = SpawnRequest::spawn(task);
    assert_eq!(r.task_type, TASK_FILE_BUILD);
    assert!(r.artifact_ref.is_none() && r.delay_secs == 0);
    let r = SpawnRequest::spawn_with(PrintFileTask { file_name: "b.md".into(), rows: Some(3) }, Some("b.md".into()), 60);
    assert_eq!((r.artifact_ref.as_deref(), r.delay_secs), (Some("b.md"), 60));
}

#[test]
fn task_registry_finds_what_was_registered() {
    let mut reg: TaskRegistry<u32> = TaskRegistry::new();
    assert!(reg.get("a").is_none());
    reg.register("a", 1);
    reg.register("b", 2);
    assert!(reg.contains("a") && reg.contains("b") && !reg.contains("c"));
    assert_eq!(reg.get("a"), Some(&1));
    assert_eq!(reg.get("b"), Some(&2));
    assert_eq!(reg.get("c"), None);
}

#[test]
fn channel_registry_routes_deliveries() {
    let mut reg: ChannelRegistry<DiscordChannel> = ChannelRegistry::new();
    reg.register(DiscordChannel::new("discord.alerts".into(), 5));
    assert!(reg.contains("discord.alerts"));
    assert_eq!(reg.get("discord.alerts").map(|c| c.channel_id), Some(5));
    assert!(matches!(
        reg.deliver_target("discord.none", &Artifact::PlainText("x".into())),
        Err(CadenceError::NoChannel)
    ));
    assert!(matches!(
        reg.deliver_target("discord.alerts", &Artifact::MarkdownFile("/a.md".into())),
        Err(CadenceError::ArtifactNotAccepted)
    ));
    assert_eq!(
        reg.deliver_target("discord.alerts", &Artifact::PlainText("x".into())).map(|c| c.channel_id),
        Ok(5)
    );
    let mut printers: ChannelRegistry<KonanPrintChannel> = ChannelRegistry::new();
    printers.register(KonanPrintChannel);
    assert!(printers.deliver_target(CHANNEL_PRINT, &Artifact::MarkdownFile("/a.md".into())).is_ok());
}
