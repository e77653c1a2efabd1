use velora::attempt::{Attempt, AttemptEvent};
use velora::binary64::Binary64;
use velora::client::HttpVersion;
use velora::events::{Event, Field};
use velora::headers::{Header, Warning};
use velora::models::{DownloadPlan, DownloadTask, HeaderTable};
use velora::pacing::SegmentPause;
use velora::runner::{compute_retry_delay, describe_task_failure, DownloadRunner};
use velora::schedule::Schedule;
use velora::task::{TaskAction, TaskFailure, TaskOutcome};

fn number(x: f64) -> Binary64 {
    Binary64 { bits: x.to_bits() }
}

fn task(url: &str, path: &str) -> DownloadTask {
    DownloadTask {
        task_key: None,
        label: None,
        display_label: None,
        url: url.to_string(),
        path: path.to_string(),
        headers: HeaderTable::new(),
    }
}

fn plan(count: usize) -> DownloadPlan {
    DownloadPlan {
        project: "Films".to_string(),
        version: 1,
        task_key: "key".to_string(),
        label: Some("L".to_string()),
        display_label: None,
        output_dir: None,
        concurrency: 4,
        retry_count: 8,
        timeout_seconds: 30,
        max_redirects: 10,
        retry_base_delay_seconds: number(1.0),
        retry_max_delay_seconds: number(4.0),
        retry_jitter_seconds: number(0.25),
        segment_delay_seconds: number(0.0),
        segment_delay_jitter_seconds: number(0.0),
        proxy_url: None,
        verify_tls: true,
        headers: HeaderTable::new(),
        user_agent: None,
        max_speed_bytes: None,
        http_version: HttpVersion::Auto,
        tasks: (0..count).map(|i| task(&format!("http://h/{}", i), &format!("d/{}", i))).collect(),
    }
}

/// The event as it is written.
fn shown(event: &Event) -> String {
    let members: Vec<String> = event
        .members()
        .iter()
        .map(|m| {
            let value = match &m.value {
                Field::Null => "null".to_string(),
                Field::Text(s) => format!("{:?}", s),
                Field::Flag(b) => b.to_string(),
                Field::Count(n) => n.to_string(),
                Field::Signed(n) => n.to_string(),
                Field::Number(x) => format!("{:?}", f64::from_bits(x.bits)),
            };
            format!("{}={}", m.key, value)
        })
        .collect();
    members.join(" ")
}

fn runner(count: usize) -> DownloadRunner {
    DownloadRunner::new(plan(count)).0
}

#[test]
fn each_task_begins_with_its_start() {
    let mut p = plan(2);
    p.tasks[1].label = Some("own".to_string());
    p.tasks[1].task_key = Some("mine".to_string());
    let r = DownloadRunner::new(p).0;
    assert_eq!(
        shown(&r.start_event(0, "base/d/0")),
        "event=\"start\" project=\"Films\" task_key=\"key\" label=\"L\" display_label=null path=\"base/d/0\" \
         url=\"http://h/0\" task_count=2 concurrency=4 max_redirects=10 verify_tls=true"
    );
    assert_eq!(
        shown(&r.start_event(1, "d/1")),
        "event=\"start\" project=\"Films\" task_key=\"mine\" label=\"own\" display_label=null path=\"d/1\" \
         url=\"http://h/1\" task_count=2 concurrency=4 max_redirects=10 verify_tls=true"
    );
}

#[test]
fn a_run_with_tasks_opens_with_its_schedule() {
    let opening = runner(2).run();
    assert!(opening.summary.is_none());
    assert!(opening.completed.is_none());
    assert_eq!(opening.schedule, Schedule::new(2, 4));
}

#[test]
fn a_run_without_tasks_is_over_at_once() {
    let mut p = plan(0);
    p.concurrency = 0;
    let opening = DownloadRunner::new(p).0.run();
    assert_eq!(
        shown(&opening.summary.unwrap()),
        "event=\"summary\" task_key=\"key\" completed=0 failed=0 skipped=0 total=0 bytes=0 \
         average_speed=\"---\" elapsed_seconds=0.0 speed=\"---\" eta_seconds=null"
    );
    assert_eq!(
        shown(&opening.completed.unwrap()),
        "event=\"completed\" task_key=\"key\" label=\"L\" display_label=null completed=0 failed=0 skipped=0 \
         total=0 bytes=0 average_speed=\"---\" elapsed_seconds=0.0"
    );
    assert_eq!(opening.schedule.limit, 1);
}

#[test]
fn a_task_without_an_address_fails_before_anything_is_done() {
    let mut p = plan(1);
    p.tasks[0].url = String::new();
    let mut r = DownloadRunner::new(p).0;
    let (_, action) = r.begin_task(0, false);
    let TaskAction::Finish(outcome) = action else { panic!("the task goes on") };
    let settled = r.settle(0, outcome, "d/0", "", number(0.0), number(0.5), 1);
    assert_eq!(
        shown(&settled.told.unwrap()),
        "event=\"error\" task_key=\"key\" label=\"L\" display_label=null pct=100 segments=\"1/1\" path=\"d/0\" \
         url=\"\" message=\"Task is missing url or path\" elapsed_seconds=0.0"
    );
    assert_eq!((r.completed_count, r.failed_count, r.completed_bytes), (0, 1, 0));
    assert_eq!(runner(1).begin_task(0, false).1, TaskAction::MeasureFinal);
    assert_eq!(runner(1).begin_task(0, true).1, TaskAction::Finish(TaskOutcome::Abandoned));
}

#[test]
fn a_new_run_warns_about_the_plan_s_headers() {
    let mut p = plan(1);
    p.headers.insert("User-Agent".to_string(), "Own/1".to_string());
    p.headers.insert("bad name".to_string(), "x".to_string());
    p.user_agent = Some("Other/2".to_string());
    let (r, warnings) = DownloadRunner::new(p);
    assert_eq!(warnings.len(), 1);
    assert_eq!(warnings[0].scope, "plan");
    assert_eq!(warnings[0].key, "bad name");
    let sent = r.request_headers(&vec![Header { name: "accept".to_string(), value: "*/*".to_string() }]);
    let sent: Vec<(&str, &str)> = sent.iter().map(|h| (h.name.as_str(), h.value.as_str())).collect();
    assert_eq!(sent, vec![("accept", "*/*"), ("user-agent", "Other/2"), ("accept-encoding", "identity")]);
}

#[test]
fn requests_carry_the_plan_s_user_agent() {
    let mut p = plan(1);
    p.user_agent = Some("Other/2".to_string());
    let (r, warnings) = DownloadRunner::new(p);
    assert!(warnings.is_empty());
    let sent = r.request_headers(&vec![]);
    assert_eq!((sent[0].name.as_str(), sent[0].value.as_str()), ("user-agent", "Other/2"));
    let own = r.request_headers(&vec![Header { name: "user-agent".to_string(), value: "Task/3".to_string() }]);
    assert_eq!((own[0].name.as_str(), own[0].value.as_str()), ("user-agent", "Task/3"));
}

#[test]
fn progress_is_counted_and_told() {
    let mut r = runner(4);
    r.plan.tasks[1].label = Some("own".to_string());
    r.speed.record(2_048);
    let before = format!("{:?}", r.speed);
    let settled = r.settle(1, TaskOutcome::Completed(2_048), "d/1", "", number(1.5), number(2.0), 2_000);
    assert_eq!(
        shown(&settled.told.unwrap()),
        "event=\"summary\" task_key=\"key\" label=\"own\" display_label=null pct=25 segments=\"1/4\" \
         size=\"2KB/8KB\" final_size=\"2KB\" speed=\"1KB/s\" path=\"d/1\" url=\"http://h/1\" bytes=2048 \
         skipped=false elapsed_seconds=1.5 eta_seconds=6.0"
    );
    assert!(settled.completed.is_none());
    assert_eq!((r.completed_count, r.failed_count, r.ended_count, r.completed_bytes), (1, 0, 1, 2_048));
    assert_eq!(format!("{:?}", r.speed), before);
}

#[test]
fn a_skipped_file_counts_only_with_its_bytes() {
    let mut r = runner(4);
    let settled = r.settle(0, TaskOutcome::Skipped(100), "d/0", "", number(0.25), number(1.0), 10);
    assert_eq!(
        shown(&settled.told.unwrap()),
        "event=\"summary\" task_key=\"key\" label=\"L\" display_label=null pct=0 segments=\"0/4\" \
         size=\"100B/100B\" final_size=\"100B\" speed=\"---\" path=\"d/0\" url=\"http://h/0\" bytes=100 \
         skipped=true elapsed_seconds=0.25 eta_seconds=null"
    );
    assert_eq!((r.completed_count, r.failed_count, r.ended_count, r.completed_bytes), (0, 0, 1, 100));
}

#[test]
fn failures_are_counted_and_told() {
    let mut r = runner(3);
    r.plan.tasks[2].task_key = Some("mine".to_string());
    r.settle(0, TaskOutcome::Completed(1), "d/0", "", number(1.0), number(1.0), 1);
    let settled = r.settle(
        2,
        TaskOutcome::Failed(TaskFailure::Attempt),
        "d/2",
        "HTTP 404 Not Found",
        number(0.5),
        number(1.0),
        7,
    );
    assert_eq!(
        shown(&settled.told.unwrap()),
        "event=\"error\" task_key=\"mine\" label=\"L\" display_label=null pct=67 segments=\"2/3\" path=\"d/2\" \
         url=\"http://h/2\" message=\"HTTP 404 Not Found\" elapsed_seconds=0.5"
    );
    assert!(settled.completed.is_none());
    assert_eq!((r.completed_count, r.failed_count, r.ended_count, r.completed_bytes), (1, 1, 2, 1));
}

#[test]
fn completion_is_told_once_all_tasks_have_finished() {
    let mut r = runner(2);
    let first = r.settle(0, TaskOutcome::Completed(1_024), "d/0", "", number(1.0), number(1.0), 1_000);
    assert!(first.completed.is_none());
    assert_eq!(r.finished, vec![true, false]);
    assert!(first.told.unwrap().members().iter().all(|m| !matches!(&m.value, Field::Text(s) if s == "completed")));
    let second =
        r.settle(1, TaskOutcome::Failed(TaskFailure::Attempt), "d/1", "no", number(1.0), number(2.0), 2_000);
    assert_eq!(
        shown(&second.completed.unwrap()),
        "event=\"completed\" task_key=\"key\" label=\"L\" display_label=null completed=1 failed=1 skipped=0 \
         total=2 bytes=1024 average_speed=\"512B/s\" elapsed_seconds=2.0"
    );
}

#[test]
fn a_plan_with_a_task_called_off_is_not_completed() {
    let mut r = runner(2);
    assert!(r.settle(0, TaskOutcome::Abandoned, "d/0", "", number(1.0), number(1.0), 1).completed.is_none());
    assert!(r.settle(1, TaskOutcome::Skipped(3), "d/1", "", number(1.0), number(1.0), 2).completed.is_none());
    assert_eq!(r.finished, vec![false, true]);
}

#[test]
fn a_snapshot_tells_the_speed_and_the_time_to_go() {
    let mut r = runner(4);
    r.speed.record(1_000);
    assert_eq!(
        shown(&r.snapshot(500, number(0.5))),
        "event=\"summary\" task_key=\"key\" completed=0 failed=0 skipped=0 total=4 bytes=0 average_speed=\"---\" \
         elapsed_seconds=0.5 speed=\"2KB/s\" eta_seconds=null"
    );
    r.settle(0, TaskOutcome::Completed(1_000), "d/0", "", number(1.0), number(1.0), 1_000);
    assert_eq!(
        shown(&r.snapshot(2_000, number(2.0))),
        "event=\"summary\" task_key=\"key\" completed=1 failed=0 skipped=0 total=4 bytes=1000 \
         average_speed=\"500B/s\" elapsed_seconds=2.0 speed=\"500B/s\" eta_seconds=6.0"
    );
    assert_eq!(r.speed.last_snapshot_ms, 0);
}

#[test]
fn a_tick_takes_a_sample() {
    let mut r = runner(4);
    r.speed.record(1_000);
    r.tick(1_000, number(1.0));
    assert_eq!((r.speed.last_snapshot_ms, r.speed.last_snapshot_bytes), (1_000, 1_000));
    r.speed.record(5_000);
    let event = r.tick(2_000, number(2.0));
    assert_eq!(r.speed.smoothed_bps, 5_000);
    assert!(shown(&event).contains("speed=\"5KB/s\""));
}

#[test]
fn written_bytes_are_counted_with_the_step_of_their_attempt() {
    let mut r = runner(1);
    let (mut attempt, _) = Attempt::begin(false, false);
    let script = [
        (AttemptEvent::PartLength(0), 0u64),
        (AttemptEvent::Response { status: 200, content_length: None }, 0),
        (AttemptEvent::Opened, 0),
        (AttemptEvent::Chunk(7), 0),
        (AttemptEvent::Written, 7),
        (AttemptEvent::Chunk(5), 7),
        (AttemptEvent::Written, 12),
        (AttemptEvent::Chunk(9), 12),
        (AttemptEvent::WriteFailed, 12),
    ];
    for (event, counted) in script {
        assert!(attempt.is_expected(event));
        r.step_attempt(&mut attempt, event, false);
        assert_eq!(r.speed.total_bytes(), counted);
    }
}

#[test]
fn failures_are_put_into_words() {
    assert_eq!(describe_task_failure(TaskFailure::Unnamed, "x"), "Task is missing url or path");
    assert_eq!(describe_task_failure(TaskFailure::NoAttempts, "x"), "");
    assert_eq!(describe_task_failure(TaskFailure::Attempt, "x"), "x");
    assert_eq!(describe_task_failure(TaskFailure::Promotion, "x"), "Unable to promote temp file: x");
}

#[test]
fn a_task_that_was_called_off_is_not_told_of() {
    let mut r = runner(1);
    let settled = r.settle(0, TaskOutcome::Abandoned, "d/0", "", number(1.0), number(1.0), 1);
    assert!(settled.told.is_none() && settled.completed.is_none());
    assert_eq!((r.completed_count, r.failed_count, r.ended_count, r.completed_bytes), (0, 0, 0, 0));
    assert_eq!(r.finished, vec![false]);
}

#[test]
fn the_summary_counts_every_task_once() {
    let mut r = runner(5);
    let second = number(1.0);
    r.settle(0, TaskOutcome::Completed(3_000_000), "d/0", "", second, second, 1_000);
    r.settle(1, TaskOutcome::Completed(1_000_000), "d/1", "", second, second, 1_100);
    r.settle(2, TaskOutcome::Failed(TaskFailure::Promotion), "d/2", "no", second, second, 1_200);
    r.settle(3, TaskOutcome::Skipped(194_304), "d/3", "", second, second, 1_300);
    r.settle(4, TaskOutcome::Abandoned, "d/4", "", second, second, 1_400);
    let totals = |r: &DownloadRunner, elapsed: f64| {
        let line = shown(&r.summary(2_000, number(elapsed)));
        line[..line.find(" speed=").unwrap()].to_string()
    };
    assert_eq!(
        totals(&r, 2.0),
        "event=\"summary\" task_key=\"key\" completed=2 failed=1 skipped=2 total=5 bytes=4194304 \
         average_speed=\"2.00MB/s\" elapsed_seconds=2.0"
    );
    assert_eq!(
        totals(&r, 0.0),
        "event=\"summary\" task_key=\"key\" completed=2 failed=1 skipped=2 total=5 bytes=4194304 \
         average_speed=\"4000.00MB/s\" elapsed_seconds=0.001"
    );
    assert_eq!(
        totals(&runner(1), 2.0),
        "event=\"summary\" task_key=\"key\" completed=0 failed=0 skipped=1 total=1 bytes=0 \
         average_speed=\"---\" elapsed_seconds=2.0"
    );
}

#[test]
fn retries_are_told_with_the_delay_that_is_waited() {
    let r = runner(1);
    let (delay, event) = r.retry(0, "d/0", 2, number(0.4936), "Request failed: x", number(0.75));
    assert_eq!(f64::from_bits(delay.bits), 2.0 + 0.4936 * 0.25);
    assert_eq!(
        shown(&event),
        "event=\"retry\" task_key=null label=null display_label=null path=\"d/0\" url=\"http://h/0\" attempt=2 \
         retry_count=8 retry_delay_seconds=2.12 message=\"Request failed: x\" elapsed_seconds=0.75"
    );
}

#[test]
fn an_endless_delay_is_told_as_endless() {
    let mut p = plan(1);
    p.retry_base_delay_seconds = number(f64::MAX);
    p.retry_max_delay_seconds = number(f64::MAX);
    p.retry_jitter_seconds = number(f64::MAX);
    p.segment_delay_seconds = number(f64::NAN);
    let (delay, event) = DownloadRunner::new(p).0.retry(0, "d/0", 1, number(0.5), "", number(0.0));
    assert_eq!(delay, number(f64::INFINITY));
    assert!(shown(&event).contains("retry_delay_seconds=inf"));
}

#[test]
fn the_other_events_are_short() {
    assert_eq!(
        shown(&Event::Version("2.0.0".to_string())),
        "event=\"version\" name=\"Velora\" version=\"2.0.0\""
    );
    assert_eq!(
        shown(&Event::PlanError { message: "m".to_string(), plan_path: "p".to_string() }),
        "event=\"error\" message=\"m\" plan_path=\"p\""
    );
    assert_eq!(
        shown(&Event::ClientError("no proxy".to_string())),
        "event=\"error\" message=\"Failed to build HTTP client: no proxy\""
    );
    assert_eq!(shown(&Event::Cancelled), "event=\"cancelled\" message=\"Cancellation requested\"");
    assert_eq!(
        shown(&Event::Warning(Warning {
            scope: "s".to_string(),
            key: "k".to_string(),
            value: "v".to_string(),
            message: "m".to_string(),
        })),
        "event=\"warning\" scope=\"s\" key=\"k\" value=\"v\" message=\"m\""
    );
}

#[test]
fn no_event_has_a_member_twice() {
    let mut r = runner(2);
    let one = number(1.0);
    let settled = r.settle(0, TaskOutcome::Completed(1), "", "", one, one, 1);
    let failed = r.settle(1, TaskOutcome::Failed(TaskFailure::Attempt), "", "", one, one, 1);
    let events = vec![
        r.start_event(0, ""),
        r.retry(0, "", 1, number(0.0), "", one).1,
        settled.told.unwrap(),
        failed.told.unwrap(),
        failed.completed.unwrap(),
        r.summary(1, one),
    ];
    assert_eq!(events[2].members().len(), 15);
    assert_eq!(events[5].members().len(), 11);
    for event in &events {
        let keys: Vec<&str> = event.members().iter().map(|m| m.key).collect();
        for (i, key) in keys.iter().enumerate() {
            assert!(!keys[..i].contains(key), "{}", key);
        }
    }
}

#[test]
fn retry_delays_double_up_to_the_cap_and_add_jitter() {
    let mut p = plan(1);
    let delay = |attempt: u32, p: &DownloadPlan, random: f64| {
        f64::from_bits(compute_retry_delay(attempt, p, number(random)).bits)
    };
    assert_eq!(delay(1, &p, 0.0), 1.0);
    assert_eq!(delay(2, &p, 0.0), 2.0);
    assert_eq!(delay(3, &p, 0.0), 4.0);
    assert_eq!(delay(4, &p, 0.0), 4.0);
    assert_eq!(delay(u32::MAX, &p, 0.0), 4.0);
    assert_eq!(delay(2, &p, 0.5), 2.125);
    assert_eq!(delay(2, &p, 0.1), 2.0 + 0.1 * 0.25);
    p.retry_jitter_seconds = number(0.0);
    assert_eq!(delay(2, &p, 0.9), 2.0);
    p.retry_base_delay_seconds = number(0.3);
    p.retry_max_delay_seconds = number(1e300);
    for attempt in 1..900u32 {
        assert_eq!(delay(attempt, &p, 0.5), (0.3 * 2f64.powi(attempt as i32 - 1)).min(1e300));
    }
}

fn slices(mut pause: SegmentPause) -> Vec<f64> {
    let mut out = Vec::new();
    while let Some(slice) = pause.next_slice(false) {
        out.push(f64::from_bits(slice.bits));
    }
    out
}

#[test]
fn a_pause_is_cut_into_quarters() {
    let pause = |delay: f64, jitter: f64, random: f64| {
        SegmentPause::new(number(delay), number(jitter), number(random))
    };
    assert_eq!(slices(pause(0.0, 0.0, 0.5)), Vec::<f64>::new());
    assert_eq!(slices(pause(-1.0, 0.5, 0.5)), Vec::<f64>::new());
    assert_eq!(slices(pause(0.625, 0.0, 0.5)), vec![0.25, 0.25, 0.125]);
    assert_eq!(slices(pause(0.5, 0.5, 0.25)), vec![0.25, 0.25, 0.125]);
    assert_eq!(slices(pause(0.0, 1.0, 0.125)), vec![0.125]);
    assert_eq!(slices(pause(-0.25, 1.0, 0.5)), vec![0.25]);
    assert_eq!(slices(pause(0.5, -3.0, 0.5)), vec![0.25, 0.25]);
    let total: f64 = slices(pause(3.7, 0.0, 0.0)).iter().sum();
    assert_eq!(total, 3.7);
}

#[test]
fn a_pause_ends_when_the_run_is_called_off() {
    let mut pause = SegmentPause::new(number(10.0), number(0.0), number(0.0));
    assert!(pause.next_slice(false).is_some());
    assert!(pause.next_slice(true).is_none());
    assert_eq!(f64::from_bits(pause.remaining.bits), 9.75);
}

#[test]
fn an_endless_pause_goes_on() {
    let mut pause = SegmentPause::new(number(f64::MAX), number(f64::MAX), number(0.5));
    for _ in 0..10 {
        assert_eq!(pause.next_slice(false), Some(number(0.25)));
    }
    assert_eq!(pause.remaining, number(f64::INFINITY));
    assert!(pause.next_slice(true).is_none());
}
