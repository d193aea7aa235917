use nara::cadence::channels::{Artifact, DeliveryChannel};
use nara::cadence::error::CadenceError;
use nara::konan::print_ops::{
    check_print_file_name, FileBuildHandler, KonanDeliverPayload, KonanPrintChannel,
    KonanPrintDeliverHandler, OutlineBuildHandler, PrintFileError, PrintFileTask, PrintJob,
    TrackerBuildHandler, CHANNEL_PRINT, MIME_OUTLINE, MIME_TRACKER, TASK_PRINT_DELIVER,
};
use nara::konan::printer::element::{Justification, TextSize};
use nara::konan::printer::rongta::RongtaPrinter;
use nara::konan::template::box_outline::BoxOutline;
use nara::konan::template::habit_tracker::HabitTracker;
use nara::konan::template::{date_banner_text, get_box_patterns, get_random_box_pattern, BoxPattern, TemplateError};
use nara::text::lines;

const JAN_30_2026: i64 = 1769731200;
const FEB_02_2026: i64 = 1769990400;

fn printed(printer: &RongtaPrinter) -> Vec<String> {
    printer.lines().iter().map(|l| l.chars.iter().map(|c| c.ch).collect()).collect()
}

fn pattern() -> BoxPattern {
    BoxPattern { top: "+--+".into(), row: "|  |".into(), bottom: "+--+".into() }
}

#[test]
fn lines_like_str_lines() {
    for text in ["a\r\nb\n\nc", "", "\n", "x\n", "x\r", "a\n\r\nb\r\n"] {
        let expected: Vec<String> = text.lines().map(String::from).collect();
        assert_eq!(lines(text), expected, "{text:?}");
    }
}

#[test]
fn box_patterns_take_four_lines_each() {
    let text = "top\nrow\nbottom\n\nT2\nR2\nB2";
    let ps = get_box_patterns(text);
    assert_eq!(ps.len(), 2);
    assert_eq!((ps[0].top.as_str(), ps[0].row.as_str(), ps[0].bottom.as_str()), ("top", "row", "bottom"));
    assert_eq!((ps[1].top.as_str(), ps[1].row.as_str(), ps[1].bottom.as_str()), ("T2", "R2", "B2"));
    // a trailing group of fewer than three lines is no pattern
    assert_eq!(get_box_patterns("a\nb\nc\n\nd\ne\n").len(), 1);
    assert!(get_box_patterns("").is_empty());
}

#[test]
fn random_pattern_is_one_of_them() {
    let none: Vec<BoxPattern> = vec![];
    assert_eq!(get_random_box_pattern(&none).err(), Some(TemplateError::NoBoxPattern));
    assert_eq!(TemplateError::NoBoxPattern.message(), "Failed to choose a random template");
    let ps = vec![pattern(), BoxPattern { top: "a".into(), row: "b".into(), bottom: "c".into() }];
    for _ in 0..20 {
        let p = get_random_box_pattern(&ps).unwrap();
        assert!(p.top == "+--+" || p.top == "a");
    }
}

#[test]
fn box_outline_defaults_and_setters() {
    let mut o = BoxOutline::default();
    assert_eq!((o.rows(), o.lined(), o.banner(), o.date()), (30, false, None, None));
    o.set_rows(2).set_lined(true).set_banner(Some("HI".into())).set_date_banner(Some(JAN_30_2026));
    assert_eq!((o.rows(), o.lined(), o.banner(), o.date()), (2, true, Some("HI".to_string()), Some(JAN_30_2026)));
}

#[test]
fn box_outline_lay_out() {
    let o = BoxOutline { banner: Some("HI".into()), date: None, rows: 3, lined: true };
    let mut p = RongtaPrinter::new(true);
    o.lay_out(&mut p, None, &pattern());
    assert_eq!(printed(&p), vec!["HI", "", "+--+", "|..|", "|  |", "|..|", "+--+", ""]);
    let banner = &p.lines()[0];
    assert_eq!(banner.justification, Justification::Center);
    assert!(banner.chars.iter().all(|c| c.bold && c.text_size == TextSize::Large));
    assert!(p.lines()[3].chars.iter().all(|c| c.bold && c.text_size == TextSize::Medium));
}

#[test]
fn date_lines_pad_and_sign_the_year() {
    assert_eq!(date_banner_text(-30_636_658_800), "Friday, March 01, 0999");
    assert_eq!(date_banner_text(327_419_283_600), "Wednesday, July 04, +12345");
    assert_eq!(date_banner_text(-63_549_442_800), "Wednesday, March 14, -0044");
    assert_eq!(date_banner_text(0), "Thursday, January 01, 1970");
    assert_eq!(date_banner_text(-1), "Wednesday, December 31, 1969");
}

#[test]
fn box_outline_with_date_line() {
    let o = BoxOutline { banner: None, date: Some(JAN_30_2026), rows: 1, lined: false };
    let text = date_banner_text(JAN_30_2026);
    assert_eq!(text, "Friday, January 30, 2026");
    let mut p = RongtaPrinter::new(true);
    o.lay_out(&mut p, Some(&text), &pattern());
    assert_eq!(printed(&p), vec!["Friday, January 30, 2026", "+--+", "|  |", "+--+", ""]);
}

#[test]
fn habit_tracker_days_and_boxes() {
    let t = HabitTracker::new("read".into(), JAN_30_2026, FEB_02_2026);
    assert_eq!(t.habit(), "read");
    assert_eq!((t.start_date(), t.end_date()), (JAN_30_2026, FEB_02_2026));
    assert_eq!(t.days(), vec![30, 31, 1, 2]);
    assert_eq!(t.checkmark_lines(), vec!["( 30 )      ( 31 )      ( 01 )      ( 02 )"]);
    assert_eq!(t.period_text(), "January 30, 2026 - February 02, 2026");
    let longer = HabitTracker::new("read".into(), JAN_30_2026, FEB_02_2026 + 86400);
    assert_eq!(longer.checkmark_lines(), vec!["( 30 )      ( 31 )      ( 01 )      ( 02 )", "( 03 )"]);
    let backwards = HabitTracker::new("read".into(), FEB_02_2026, JAN_30_2026);
    assert!(backwards.days().is_empty());
    // a start during the day still counts that day
    let midday = HabitTracker::new("x".into(), JAN_30_2026 + 43200, JAN_30_2026);
    assert_eq!(midday.days(), vec![30]);
}

#[test]
fn habit_tracker_lay_out() {
    let t = HabitTracker::new("read".into(), JAN_30_2026, FEB_02_2026);
    let period = t.period_text();
    let mut p = RongtaPrinter::new(true);
    t.lay_out(&mut p, &period, &pattern());
    assert_eq!(
        printed(&p),
        vec![
            "January 30, 2026 - February 02, 2026",
            "+--+",
            "READ",
            "+--+",
            "( 30 )      ( 31 )      ( 01 )      ( 02 )",
            "+--+",
            "",
        ]
    );
    assert!(p.lines()[2].chars.iter().all(|c| c.text_size == TextSize::Large));
    assert_eq!(p.lines()[2].justification, Justification::Center);
}

#[test]
fn print_file_names() {
    assert_eq!(check_print_file_name("notes.md"), Ok(()));
    let e = check_print_file_name("notes.txt").unwrap_err();
    assert_eq!(e, PrintFileError::NotMarkdown("notes.txt".into()));
    assert_eq!(e.message(), "file must be a markdown file (.md): notes.txt");
    for bad in ["../x.md", "a/b.md", "a\\b.md", "a\0.md", "a..b.md"] {
        let e = check_print_file_name(bad).unwrap_err();
        assert_eq!(e, PrintFileError::InvalidName(bad.into()));
        assert_eq!(e.message(), format!("invalid file name: {bad}"));
    }
    assert_eq!(check_print_file_name(".md"), Ok(()));
    assert_eq!(check_print_file_name("md"), Err(PrintFileError::NotMarkdown("md".into())));
}

#[test]
fn print_channel_accepts_print_artifacts() {
    let ch = KonanPrintChannel;
    assert_eq!(ch.name(), CHANNEL_PRINT);
    assert!(ch.accepts(&Artifact::MarkdownFile("/x.md".into())));
    assert!(ch.accepts(&Artifact::Bytes { data: vec![], mime: MIME_OUTLINE.into() }));
    assert!(ch.accepts(&Artifact::Bytes { data: vec![], mime: MIME_TRACKER.into() }));
    assert!(!ch.accepts(&Artifact::Bytes { data: vec![], mime: "text/plain".into() }));
    assert!(!ch.accepts(&Artifact::PlainText("hi".into())));
}

#[test]
fn print_jobs_by_artifact() {
    let ch = KonanPrintChannel;
    assert!(matches!(ch.print_job(Artifact::Bytes { data: vec![1], mime: MIME_OUTLINE.into() }), Ok(PrintJob::Outline(d)) if d == vec![1]));
    assert!(matches!(ch.print_job(Artifact::Bytes { data: vec![2], mime: MIME_TRACKER.into() }), Ok(PrintJob::Tracker(d)) if d == vec![2]));
    assert!(matches!(ch.print_job(Artifact::MarkdownFile("/x.md".into())), Ok(PrintJob::Markdown(p)) if p == "/x.md"));
    assert!(matches!(ch.print_job(Artifact::PlainText("x".into())), Err(CadenceError::ArtifactNotAccepted)));
    assert!(matches!(ch.print_job(Artifact::Bytes { data: vec![], mime: "x".into() }), Err(CadenceError::ArtifactNotAccepted)));
}

#[test]
fn build_handlers_spawn_the_deliver_step() {
    let r = OutlineBuildHandler.run(BoxOutline::default());
    assert_eq!(r.task_type, TASK_PRINT_DELIVER);
    assert!(matches!(r.payload, KonanDeliverPayload::Outline { .. }));
    assert!(r.artifact_ref.is_none() && r.delay_secs == 0);
    let r = TrackerBuildHandler.run(HabitTracker::new("x".into(), 0, 0));
    assert!(matches!(r.payload, KonanDeliverPayload::Tracker { .. }));
    let task = PrintFileTask { file_name: "a.md".into(), rows: Some(20) };
    let r = FileBuildHandler.run(task.clone(), true).unwrap();
    assert_eq!(r.artifact_ref.as_deref(), Some("a.md"));
    assert!(matches!(r.payload, KonanDeliverPayload::File { ref file_name, rows: Some(20) } if file_name == "a.md"));
    match FileBuildHandler.run(task, false) {
        Err(CadenceError::Channel(m)) => assert_eq!(m, "file not found: a.md"),
        _ => panic!("a missing file fails the job"),
    }
}

#[test]
fn deliver_handler_makes_printable_artifacts() {
    let h = KonanPrintDeliverHandler;
    let outline = KonanDeliverPayload::Outline { outline: BoxOutline::default() };
    match h.artifact(&outline, vec![7], String::new()) {
        Artifact::Bytes { data, mime } => assert_eq!((data, mime.as_str()), (vec![7], MIME_OUTLINE)),
        _ => panic!(),
    }
    let file = KonanDeliverPayload::File { file_name: "a.md".into(), rows: None };
    let a = h.artifact(&file, vec![], "/files/a.md".into());
    assert!(matches!(&a, Artifact::MarkdownFile(p) if p == "/files/a.md"));
    assert!(KonanPrintChannel.accepts(&a));
}
