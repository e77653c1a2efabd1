//! A whole run: what its tasks share, what is counted, and the events that tell of it.

use vstd::prelude::*;

use crate::attempt::{self, Attempt, AttemptAction, AttemptEvent, AttemptFailure, AttemptPhase};
use crate::binary64::{nearest, nearest_keeps_order, product, quotient, rounded, units, Binary64, INFINITY};
use crate::events::{CompletedEvent, Event, FailedEvent, FieldView, ProgressEvent, RetryEvent,
    StartEvent, SummaryEvent};
use crate::format::{format_size, format_speed, size_text, speed_text};
use crate::headers::{apply_headers, default_agent, dropped_headers, fit_headers, headers_view, merged,
    override_user_agent, parse_headers, plan_level, warnings_view, Header, ParsedHeaders, Warning};
use crate::models::{copy_text, text_of, DownloadPlan, DownloadTask, PlanView, TaskView};
use crate::pacing::{add_jitter, backoff, backoff_units, hundredths, round_to_hundredths, ONE};
use crate::progress::{count_text, estimate_remaining, format_count, format_progress, percent, percentage,
    remaining_seconds, size_progress};
use crate::responses::{called_off, worth_retrying};
use crate::schedule::Schedule;
use crate::speed::SpeedTracker;
use crate::task::{self, is_named, TaskAction, TaskEvent, TaskFailure, TaskOutcome, TaskRun};

verus! {

/// The pattern of one thousandth.
pub const THOUSANDTH: u64 = 0x3f50_624d_d2f1_a9fc;

/// How many milliseconds lie between two periodic summaries.
pub const SUMMARY_INTERVAL_MS: u64 = 1000;

/// A run of a plan.
pub struct DownloadRunner {
    pub plan: DownloadPlan,
    pub plan_headers: Vec<Header>,
    pub default_user_agent: String,
    pub speed: SpeedTracker,
    pub completed_count: u32,
    pub failed_count: u32,
    /// Which tasks have finished: their file was fetched or was there already, or they failed.
    pub finished: Vec<bool>,
    /// How many tasks have finished.
    pub ended_count: usize,
    pub completed_bytes: i64,
}

/// What a run begins with.
pub struct RunOpening {
    /// Which tasks run when.
    pub schedule: Schedule,
    /// The summary that follows at once where there is nothing to do.
    pub summary: Option<Event>,
    /// The end of the plan, which is told at once where there is nothing to do.
    pub completed: Option<Event>,
}

/// What the end of a task tells.
pub struct Settled {
    /// The progress that it makes, or its failure.
    pub told: Option<Event>,
    /// That all tasks of the plan have finished.
    pub completed: Option<Event>,
}

/// The value of an optional text.
pub open spec fn text_field(o: Option<Seq<char>>) -> FieldView {
    match o {
        Some(s) => FieldView::Text(s),
        None => FieldView::Null,
    }
}

/// The text of a task, or that of the plan where the task has none.
pub open spec fn own_or(own: Option<Seq<char>>, other: Option<Seq<char>>) -> Option<Seq<char>> {
    match own {
        Some(s) => Some(s),
        None => other,
    }
}

/// The key that a task's events carry.
pub open spec fn key_of(plan: PlanView, task: TaskView) -> Seq<char> {
    match task.task_key {
        Some(key) => key,
        None => plan.task_key,
    }
}

/// What tells of the beginning of a task's download.
pub open spec fn start_body(plan: PlanView, task: TaskView, path: Seq<char>) -> Seq<
    (Seq<char>, FieldView),
> {
    seq![
        ("project"@, FieldView::Text(plan.project)),
        ("task_key"@, FieldView::Text(key_of(plan, task))),
        ("label"@, text_field(own_or(task.label, plan.label))),
        ("display_label"@, text_field(own_or(task.display_label, plan.display_label))),
        ("path"@, FieldView::Text(path)),
        ("url"@, FieldView::Text(task.url)),
        ("task_count"@, FieldView::Count(plan.tasks.len() as u64)),
        ("concurrency"@, FieldView::Count(plan.concurrency as u64)),
        ("max_redirects"@, FieldView::Count(plan.max_redirects as u64)),
        ("verify_tls"@, FieldView::Flag(plan.verify_tls)),
    ]
}

/// Of a number of tasks those that were neither completed nor failed.
pub open spec fn left_over(completed: int, failed: int, total: int) -> int {
    if completed + failed <= total {
        total - completed - failed
    } else {
        0
    }
}

/// How long a run has taken; it counts as no shorter than a thousandth of a second.
pub open spec fn run_time(elapsed: Binary64) -> Binary64 {
    elapsed.spec_at_least(Binary64 { bits: THOUSANDTH })
}

/// The average speed over a time, as text.
pub open spec fn average_text(bytes: int, time: Binary64) -> Seq<char> {
    if bytes <= 0 {
        "---"@
    } else {
        speed_text(Binary64 { bits: quotient(rounded(bytes as nat), time@) as u64 })
    }
}

/// How long a run will still take.
pub open spec fn eta_field(plan: PlanView, completed: u32, bytes: i64, rate: nat) -> FieldView {
    match remaining_seconds(bytes as int, completed as nat, plan.tasks.len(), rate) {
        Some(seconds) => FieldView::Number(Binary64 { bits: seconds as u64 }),
        None => FieldView::Null,
    }
}

/// What tells how far a run has come: what is counted, the speed, and how long it will still take.
pub open spec fn summary_body(
    plan: PlanView,
    completed: u32,
    failed: u32,
    skipped: int,
    bytes: i64,
    time: Binary64,
    rate: nat,
) -> Seq<(Seq<char>, FieldView)> {
    seq![
        ("task_key"@, FieldView::Text(plan.task_key)),
        ("completed"@, FieldView::Count(completed as u64)),
        ("failed"@, FieldView::Count(failed as u64)),
        ("skipped"@, FieldView::Count(skipped as u64)),
        ("total"@, FieldView::Count(plan.tasks.len() as u64)),
        ("bytes"@, FieldView::Signed(bytes)),
        ("average_speed"@, FieldView::Text(average_text(bytes as int, time))),
        ("elapsed_seconds"@, FieldView::Number(time)),
        ("speed"@, FieldView::Text(speed_text(Binary64 { bits: rate as u64 }))),
        ("eta_seconds"@, eta_field(plan, completed, bytes, rate)),
    ]
}

/// What tells how far a run has come with the file of a task, which is in its place.
pub open spec fn progress_body(
    plan: PlanView,
    task: TaskView,
    completed: u32,
    all_bytes: i64,
    rate: nat,
    path: Seq<char>,
    bytes: u64,
    skipped: bool,
    elapsed: Binary64,
) -> Seq<(Seq<char>, FieldView)> {
    let total = plan.tasks.len();
    seq![
        ("task_key"@, FieldView::Text(key_of(plan, task))),
        ("label"@, text_field(own_or(task.label, plan.label))),
        ("display_label"@, text_field(own_or(task.display_label, plan.display_label))),
        ("pct"@, FieldView::Count(percentage(completed as nat, total) as u64)),
        ("segments"@, FieldView::Text(count_text(completed as nat, total))),
        ("size"@, FieldView::Text(size_progress(all_bytes as int, completed as nat, total))),
        ("final_size"@, FieldView::Text(size_text(bytes as i64 as int))),
        ("speed"@, FieldView::Text(speed_text(Binary64 { bits: rate as u64 }))),
        ("path"@, FieldView::Text(path)),
        ("url"@, FieldView::Text(task.url)),
        ("bytes"@, FieldView::Count(bytes)),
        ("skipped"@, FieldView::Flag(skipped)),
        ("elapsed_seconds"@, FieldView::Number(elapsed)),
        ("eta_seconds"@, eta_field(plan, completed, all_bytes, rate)),
    ]
}

/// What tells that all tasks of a plan have finished.
pub open spec fn completed_body(
    plan: PlanView,
    completed: u32,
    failed: u32,
    skipped: int,
    bytes: i64,
    time: Binary64,
) -> Seq<(Seq<char>, FieldView)> {
    seq![
        ("task_key"@, FieldView::Text(plan.task_key)),
        ("label"@, text_field(plan.label)),
        ("display_label"@, text_field(plan.display_label)),
        ("completed"@, FieldView::Count(completed as u64)),
        ("failed"@, FieldView::Count(failed as u64)),
        ("skipped"@, FieldView::Count(skipped as u64)),
        ("total"@, FieldView::Count(plan.tasks.len() as u64)),
        ("bytes"@, FieldView::Signed(bytes)),
        ("average_speed"@, FieldView::Text(average_text(bytes as int, time))),
        ("elapsed_seconds"@, FieldView::Number(time)),
    ]
}

/// What tells of a failed attempt that another follows.
pub open spec fn retry_body(
    plan: PlanView,
    task: TaskView,
    path: Seq<char>,
    attempt: u32,
    delay: Binary64,
    message: Seq<char>,
    elapsed: Binary64,
) -> Seq<(Seq<char>, FieldView)> {
    seq![
        ("task_key"@, text_field(task.task_key)),
        ("label"@, text_field(task.label)),
        ("display_label"@, text_field(task.display_label)),
        ("path"@, FieldView::Text(path)),
        ("url"@, FieldView::Text(task.url)),
        ("attempt"@, FieldView::Count(attempt as u64)),
        ("retry_count"@, FieldView::Count(plan.retry_count as u64)),
        ("retry_delay_seconds"@, FieldView::Number(Binary64 { bits: hundredths(delay@) as u64 })),
        ("message"@, FieldView::Text(message)),
        ("elapsed_seconds"@, FieldView::Number(elapsed)),
    ]
}

/// What tells of a task that was given up.
pub open spec fn failed_body(
    plan: PlanView,
    task: TaskView,
    processed: nat,
    message: Seq<char>,
    elapsed: Binary64,
) -> Seq<(Seq<char>, FieldView)> {
    let total = plan.tasks.len();
    seq![
        ("task_key"@, FieldView::Text(key_of(plan, task))),
        ("label"@, text_field(own_or(task.label, plan.label))),
        ("display_label"@, text_field(own_or(task.display_label, plan.display_label))),
        ("pct"@, FieldView::Count(percentage(processed, total) as u64)),
        ("segments"@, FieldView::Text(count_text(processed, total))),
        ("path"@, FieldView::Text(task.path)),
        ("url"@, FieldView::Text(task.url)),
        ("message"@, FieldView::Text(message)),
        ("elapsed_seconds"@, FieldView::Number(elapsed)),
    ]
}

/// A copy of a text, or of another where there is none.
fn copy_or(own: &Option<String>, other: &Option<String>) -> (r: Option<String>)
    ensures
        text_of(r) == own_or(text_of(*own), text_of(*other)),
{
    match own {
        Some(s) => Some(s.clone()),
        None => copy_text(other),
    }
}

/// A copy of a task's key, or of the plan's where it has none.
fn copy_key(plan: &DownloadPlan, task: &DownloadTask) -> (r: String)
    ensures
        r@ == key_of(plan@, task@),
{
    match &task.task_key {
        Some(key) => key.clone(),
        None => plan.task_key.clone(),
    }
}

/// Writes the average speed over a time.
fn average_speed(bytes: i64, time: Binary64) -> (r: String)
    requires
        bytes > 0 ==> time.finite() && time@ != 0,
    ensures
        r@ == average_text(bytes as int, time),
{
    if bytes <= 0 {
        "---".to_owned()
    } else {
        format_speed(Binary64::from_integer(bytes as u64).divided_by(time))
    }
}

/// Counts those of a number of tasks that were neither completed nor failed.
fn count_left_over(completed: u32, failed: u32, total: u32) -> (r: u32)
    ensures
        r == left_over(completed as int, failed as int, total as int),
{
    let processed: u64 = completed as u64 + failed as u64;
    if processed <= total as u64 {
        (total as u64 - processed) as u32
    } else {
        0
    }
}

/// Tells how far a run has come.
fn tell_summary(
    plan: &DownloadPlan,
    completed: u32,
    failed: u32,
    skipped: u32,
    bytes: i64,
    time: Binary64,
    rate: Binary64,
) -> (r: Event)
    requires
        bytes > 0 ==> time.finite() && time@ != 0,
        rate.finite(),
    ensures
        r.kind() == "summary"@,
        r.body() == summary_body(plan@, completed, failed, skipped as int, bytes, time, rate@),
{
    let total: usize = plan.tasks.len();
    let event: Event = Event::Summary(
        SummaryEvent {
            task_key: plan.task_key.clone(),
            completed,
            failed,
            skipped,
            total: total as u64,
            bytes,
            average_speed: average_speed(bytes, time),
            elapsed_seconds: time,
            speed: format_speed(rate),
            eta_seconds: estimate_remaining(bytes, completed, total, rate),
        },
    );
    assert(event.body() =~= summary_body(
        plan@,
        completed,
        failed,
        skipped as int,
        bytes,
        time,
        rate@,
    ));
    event
}

/// Tells that all tasks of a plan have finished.
fn tell_completed(
    plan: &DownloadPlan,
    completed: u32,
    failed: u32,
    skipped: u32,
    bytes: i64,
    time: Binary64,
) -> (r: Event)
    requires
        bytes > 0 ==> time.finite() && time@ != 0,
    ensures
        r.kind() == "completed"@,
        r.body() == completed_body(plan@, completed, failed, skipped as int, bytes, time),
{
    let event: Event = Event::Completed(
        CompletedEvent {
            task_key: plan.task_key.clone(),
            label: copy_text(&plan.label),
            display_label: copy_text(&plan.display_label),
            completed,
            failed,
            skipped,
            total: plan.tasks.len() as u64,
            bytes,
            average_speed: average_speed(bytes, time),
            elapsed_seconds: time,
        },
    );
    assert(event.body() =~= completed_body(plan@, completed, failed, skipped as int, bytes, time));
    event
}

impl DownloadRunner {
    /// Of the first tasks that ended those that were neither completed nor failed.
    pub open spec fn skipped_of(self, ended: usize) -> int {
        left_over(self.completed_count as int, self.failed_count as int, ended as u32 as int)
    }

    /// What tells how far the run has come at a time.
    pub open spec fn snapshot_body(self, now_ms: u64, elapsed: Binary64) -> Seq<
        (Seq<char>, FieldView),
    > {
        summary_body(
            self.plan@,
            self.completed_count,
            self.failed_count,
            self.skipped_of(self.ended_count),
            self.completed_bytes,
            run_time(elapsed),
            self.speed.current_rate(now_ms),
        )
    }

    /// What tells how far the run has come at a time with the file of the task at a position.
    pub open spec fn file_body(
        self,
        index: int,
        path: Seq<char>,
        bytes: u64,
        skipped: bool,
        elapsed: Binary64,
        now_ms: u64,
    ) -> Seq<(Seq<char>, FieldView)> {
        progress_body(
            self.plan@,
            self.plan@.tasks[index],
            self.completed_count,
            self.completed_bytes,
            self.speed.current_rate(now_ms),
            path,
            bytes,
            skipped,
            elapsed,
        )
    }

    /// Whether the run knows of each task whether it has finished, and how many have.
    pub open spec fn well_formed(self) -> bool {
        &&& self.finished@.len() == self.plan@.tasks.len()
        &&& self.ended_count == marked(self.finished@)
    }

    /// Whether every task of the plan has finished.
    pub open spec fn all_finished(self) -> bool {
        forall|i: int| 0 <= i < self.plan@.tasks.len() ==> #[trigger] self.finished@[i]
    }

    /// A run of a plan that has not begun, and the warnings about the plan's headers.
    pub fn new(plan: DownloadPlan) -> (r: (Self, Vec<Warning>))
        ensures
            r.0.plan == plan,
            headers_view(r.0.plan_headers@) == plan_level(
                fit_headers(plan@.headers),
                plan@.user_agent,
            ),
            r.0.default_user_agent@ == default_agent(plan@.user_agent),
            r.0.speed.total_bytes == 0,
            r.0.speed.last_snapshot_bytes == 0,
            r.0.speed.last_snapshot_ms == 0,
            r.0.speed.smoothed_bps == 0,
            r.0.completed_count == 0,
            r.0.failed_count == 0,
            r.0.ended_count == 0,
            r.0.well_formed(),
            forall|i: int| 0 <= i < plan@.tasks.len() ==> !#[trigger] r.0.finished@[i],
            r.0.completed_bytes == 0,
            r.0.counts(Seq::empty()),
            warnings_view(r.1@) == dropped_headers(plan@.headers, "plan"@),
    {
        let parsed: ParsedHeaders = parse_headers(&plan.headers, "plan");
        let (plan_headers, default_user_agent): (Vec<Header>, String) = override_user_agent(
            parsed.headers,
            &plan.user_agent,
        );
        let mut finished: Vec<bool> = Vec::new();
        let mut i: usize = 0;
        while i < plan.tasks.len()
            invariant
                i <= plan.tasks.len(),
                finished.len() == i,
                forall|j: int| 0 <= j < i ==> !#[trigger] finished@[j],
            decreases plan.tasks.len() - i,
        {
            finished.push(false);
            i = i + 1;
        }
        proof {
            lemma_none_marked(finished@);
        }
        let runner: DownloadRunner = DownloadRunner {
            plan,
            plan_headers,
            default_user_agent,
            speed: SpeedTracker::new(),
            completed_count: 0,
            failed_count: 0,
            finished,
            ended_count: 0,
            completed_bytes: 0,
        };
        (runner, parsed.warnings)
    }

    /// What the run begins with: its schedule, and where it has no tasks its end.
    pub fn run(&self) -> (r: RunOpening)
        ensures
            r.schedule == Schedule::fresh(self.plan.tasks.len(), self.plan.concurrency),
            r.schedule.well_formed(),
            r.summary is Some <==> self.plan@.tasks.len() == 0,
            r.summary matches Some(e) ==> e.kind() == "summary"@ && e.body() == summary_body(
                self.plan@,
                0,
                0,
                0,
                0,
                Binary64 { bits: 0 },
                0,
            ),
            r.completed is Some <==> self.plan@.tasks.len() == 0,
            r.completed matches Some(e) ==> e.kind() == "completed"@ && e.body() == completed_body(
                self.plan@,
                0,
                0,
                0,
                0,
                Binary64 { bits: 0 },
            ),
    {
        let schedule: Schedule = Schedule::new(self.plan.tasks.len(), self.plan.concurrency);
        let zero: Binary64 = Binary64::zero();
        if self.plan.tasks.len() == 0 {
            RunOpening {
                schedule,
                summary: Some(tell_summary(&self.plan, 0, 0, 0, 0, zero, zero)),
                completed: Some(tell_completed(&self.plan, 0, 0, 0, 0, zero)),
            }
        } else {
            RunOpening { schedule, summary: None, completed: None }
        }
    }

    /// Begins a task; one that names no address or no path fails.
    pub fn begin_task(&self, index: usize, cancelled: bool) -> (r: (TaskRun, TaskAction))
        requires
            index < self.plan@.tasks.len(),
        ensures
            r == TaskRun::begun(
                self.plan.retry_count,
                self.plan@.tasks[index as int].url.len() > 0 && self.plan@.tasks[index as int].path.len()
                    > 0,
                cancelled,
            ),
            r.0.well_formed(),
    {
        let task: &DownloadTask = &self.plan.tasks[index];
        assert(task@ == self.plan@.tasks[index as int]);
        TaskRun::begin(self.plan.retry_count, is_named(task), cancelled)
    }

    /// Tells that the download of a task begins.
    pub fn start_event(&self, index: usize, path: &str) -> (r: Event)
        requires
            index < self.plan@.tasks.len(),
        ensures
            r.kind() == "start"@,
            r.body() == start_body(self.plan@, self.plan@.tasks[index as int], path@),
    {
        let task: &DownloadTask = &self.plan.tasks[index];
        assert(task@ == self.plan@.tasks[index as int]);
        let event: Event = Event::Start(
            StartEvent {
                project: self.plan.project.clone(),
                task_key: copy_key(&self.plan, task),
                label: copy_or(&task.label, &self.plan.label),
                display_label: copy_or(&task.display_label, &self.plan.display_label),
                path: path.to_owned(),
                url: task.url.clone(),
                task_count: self.plan.tasks.len() as u64,
                concurrency: self.plan.concurrency as u64,
                max_redirects: self.plan.max_redirects,
                verify_tls: self.plan.verify_tls,
            },
        );
        assert(event.body() =~= start_body(self.plan@, task@, path@));
        event
    }

    /// What every request of a task carries, given the task's own headers.
    pub fn request_headers(&self, task_headers: &Vec<Header>) -> (r: Vec<Header>)
        ensures
            headers_view(r@) == merged(
                headers_view(self.plan_headers@),
                headers_view(task_headers@),
                self.default_user_agent@,
            ),
    {
        apply_headers(&self.plan_headers, task_headers, self.default_user_agent.as_str())
    }

    /// Takes an event for an attempt of the run and tells what is to be done next; bytes that were
    /// written are counted.
    pub fn step_attempt(&mut self, attempt: &mut Attempt, event: AttemptEvent, cancelled: bool) -> (r:
        AttemptAction)
        requires
            old(attempt).expects(event),
        ensures
            (*final(attempt), r) == old(attempt).next(event, cancelled),
            *final(self) == (DownloadRunner {
                speed: match old(attempt).phase {
                    AttemptPhase::Writing(n) => if event is Written {
                        old(self).speed.recorded(n)
                    } else {
                        old(self).speed
                    },
                    _ => old(self).speed,
                },
                ..*old(self)
            }),
    {
        if let AttemptPhase::Writing(n) = attempt.phase {
            if let AttemptEvent::Written = event {
                self.speed.record(n);
            }
        }
        attempt.step(event, cancelled)
    }

    /// Decides how long to wait after a failed attempt, `random` being a number drawn from zero to
    /// one, and tells of the attempt and of that delay.
    pub fn retry(
        &self,
        index: usize,
        path: &str,
        attempt: u32,
        random: Binary64,
        message: &str,
        elapsed: Binary64,
    ) -> (r: (Binary64, Event))
        requires
            index < self.plan@.tasks.len(),
            attempt >= 1,
            self.plan@.usable_delays(),
            random.bits <= ONE,
        ensures
            r.0@ == retry_delay(self.plan@, attempt as nat, random),
            r.1.kind() == "retry"@,
            r.1.body() == retry_body(
                self.plan@,
                self.plan@.tasks[index as int],
                path@,
                attempt,
                r.0,
                message@,
                elapsed,
            ),
    {
        let delay: Binary64 = compute_retry_delay(attempt, &self.plan, random);
        let task: &DownloadTask = &self.plan.tasks[index];
        assert(task@ == self.plan@.tasks[index as int]);
        let event: Event = Event::Retry(
            RetryEvent {
                task_key: copy_text(&task.task_key),
                label: copy_text(&task.label),
                display_label: copy_text(&task.display_label),
                path: path.to_owned(),
                url: task.url.clone(),
                attempt,
                retry_count: self.plan.retry_count,
                retry_delay_seconds: round_to_hundredths(delay),
                message: message.to_owned(),
                elapsed_seconds: elapsed,
            },
        );
        assert(event.body() =~= retry_body(
            self.plan@,
            self.plan@.tasks[index as int],
            path@,
            attempt,
            delay,
            message@,
            elapsed,
        ));
        (delay, event)
    }

    /// Takes note that the task at a position has finished.
    fn mark_finished(&mut self, index: usize)
        requires
            old(self).well_formed(),
            index < old(self).plan@.tasks.len(),
            !old(self).finished@[index as int],
        ensures
            *final(self) == (DownloadRunner {
                finished: final(self).finished,
                ended_count: (old(self).ended_count + 1) as usize,
                ..*old(self)
            }),
            final(self).finished@ == old(self).finished@.update(index as int, true),
            final(self).well_formed(),
    {
        proof {
            lemma_marked_bounds(self.finished@);
            lemma_one_more_marked(self.finished@, index as int);
            assert(self.plan@.tasks.len() == self.plan.tasks.len());
        }
        self.finished.set(index, true);
        self.ended_count = self.ended_count + 1;
    }

    /// Counts a file that is in its place and tells of the progress that it makes; one that was there
    /// before is not counted as completed, but its bytes are. The sampling window stays as it is.
    pub fn register_completion(
        &mut self,
        index: usize,
        path: &str,
        bytes: u64,
        skipped: bool,
        elapsed: Binary64,
        now_ms: u64,
    ) -> (r: Event)
        requires
            old(self).well_formed(),
            index < old(self).plan@.tasks.len(),
            !old(self).finished@[index as int],
            !skipped ==> old(self).completed_count < u32::MAX,
        ensures
            *final(self) == (DownloadRunner {
                completed_count: (old(self).completed_count + if skipped {
                    0int
                } else {
                    1
                }) as u32,
                finished: final(self).finished,
                ended_count: (old(self).ended_count + 1) as usize,
                completed_bytes: vstd::wrapping::i64_specs::wrapping_add(
                    old(self).completed_bytes,
                    bytes as i64,
                ),
                ..*old(self)
            }),
            final(self).finished@ == old(self).finished@.update(index as int, true),
            final(self).well_formed(),
            r.kind() == "summary"@,
            r.body() == final(self).file_body(index as int, path@, bytes, skipped, elapsed, now_ms),
    {
        if !skipped {
            self.completed_count = self.completed_count + 1;
        }
        self.mark_finished(index);
        self.completed_bytes = self.completed_bytes.wrapping_add(bytes as i64);
        let rate: Binary64 = self.speed.current_bps(now_ms);
        let total: usize = self.plan.tasks.len();
        let task: &DownloadTask = &self.plan.tasks[index];
        assert(task@ == self.plan@.tasks[index as int]);
        let event: Event = Event::Progress(
            ProgressEvent {
                task_key: copy_key(&self.plan, task),
                label: copy_or(&task.label, &self.plan.label),
                display_label: copy_or(&task.display_label, &self.plan.display_label),
                pct: percent(self.completed_count, total),
                segments: format_count(self.completed_count, total),
                size: format_progress(self.completed_bytes, self.completed_count, total),
                final_size: format_size(bytes as i64),
                speed: format_speed(rate),
                path: path.to_owned(),
                url: task.url.clone(),
                bytes,
                skipped,
                elapsed_seconds: elapsed,
                eta_seconds: estimate_remaining(
                    self.completed_bytes,
                    self.completed_count,
                    total,
                    rate,
                ),
            },
        );
        assert(event.body() =~= self.file_body(index as int, path@, bytes, skipped, elapsed, now_ms));
        event
    }

    /// Tells how far the run has come: the current speed, and how long it will still take.
    pub fn snapshot(&self, now_ms: u64, elapsed: Binary64) -> (r: Event)
        requires
            elapsed.finite(),
        ensures
            r.kind() == "summary"@,
            r.body() == self.snapshot_body(now_ms, elapsed),
    {
        tell_summary(
            &self.plan,
            self.completed_count,
            self.failed_count,
            count_left_over(self.completed_count, self.failed_count, self.ended_count as u32),
            self.completed_bytes,
            elapsed.at_least(Binary64 { bits: THOUSANDTH }),
            self.speed.current_bps(now_ms),
        )
    }

    /// Takes a sample of the speed and tells how far the run has come.
    pub fn tick(&mut self, now_ms: u64, elapsed: Binary64) -> (r: Event)
        requires
            elapsed.finite(),
        ensures
            *final(self) == (DownloadRunner {
                speed: old(self).speed.sampled(now_ms),
                ..*old(self)
            }),
            r.kind() == "summary"@,
            r.body() == final(self).snapshot_body(now_ms, elapsed),
    {
        self.speed.bytes_per_second(now_ms);
        self.snapshot(now_ms, elapsed)
    }

    /// Counts a task that was given up and tells of it.
    pub fn register_failure(&mut self, index: usize, message: &str, elapsed: Binary64) -> (r: Event)
        requires
            old(self).well_formed(),
            index < old(self).plan@.tasks.len(),
            !old(self).finished@[index as int],
            old(self).completed_count + old(self).failed_count < u32::MAX,
        ensures
            *final(self) == (DownloadRunner {
                failed_count: (old(self).failed_count + 1) as u32,
                finished: final(self).finished,
                ended_count: (old(self).ended_count + 1) as usize,
                ..*old(self)
            }),
            final(self).finished@ == old(self).finished@.update(index as int, true),
            final(self).well_formed(),
            r.kind() == "error"@,
            r.body() == failed_body(
                old(self).plan@,
                old(self).plan@.tasks[index as int],
                (old(self).completed_count + old(self).failed_count + 1) as nat,
                message@,
                elapsed,
            ),
    {
        self.failed_count = self.failed_count + 1;
        self.mark_finished(index);
        let processed: u32 = self.completed_count + self.failed_count;
        let total: usize = self.plan.tasks.len();
        let task: &DownloadTask = &self.plan.tasks[index];
        assert(task@ == self.plan@.tasks[index as int]);
        let event: Event = Event::Failed(
            FailedEvent {
                task_key: copy_key(&self.plan, task),
                label: copy_or(&task.label, &self.plan.label),
                display_label: copy_or(&task.display_label, &self.plan.display_label),
                pct: percent(processed, total),
                segments: format_count(processed, total),
                path: task.path.clone(),
                url: task.url.clone(),
                message: message.to_owned(),
                elapsed_seconds: elapsed,
            },
        );
        assert(event.body() =~= failed_body(
            old(self).plan@,
            old(self).plan@.tasks[index as int],
            processed as nat,
            message@,
            elapsed,
        ));
        event
    }

    /// Tells how far the run has come at its end: what was neither completed nor failed counts as
    /// skipped.
    pub fn summary(&self, now_ms: u64, elapsed: Binary64) -> (r: Event)
        requires
            elapsed.finite(),
        ensures
            r.kind() == "summary"@,
            r.body() == summary_body(
                self.plan@,
                self.completed_count,
                self.failed_count,
                self.skipped_of(self.plan.tasks.len()),
                self.completed_bytes,
                run_time(elapsed),
                self.speed.current_rate(now_ms),
            ),
    {
        let total: usize = self.plan.tasks.len();
        tell_summary(
            &self.plan,
            self.completed_count,
            self.failed_count,
            count_left_over(self.completed_count, self.failed_count, total as u32),
            self.completed_bytes,
            elapsed.at_least(Binary64 { bits: THOUSANDTH }),
            self.speed.current_bps(now_ms),
        )
    }
}

/// How long to wait after a failed attempt, in units: the backoff and a random part of the jitter.
pub open spec fn retry_delay(plan: PlanView, attempt: nat, random: Binary64) -> nat {
    let backoff = backoff_units(
        attempt,
        plan.retry_base_delay_seconds@,
        plan.retry_max_delay_seconds@,
    );
    let extra = if plan.retry_jitter_seconds@ > 0 {
        units(product(random@, plan.retry_jitter_seconds@))
    } else {
        0
    };
    nearest(backoff + extra, 1)
}

/// Computes how long to wait after a failed attempt, `random` being a number drawn from zero to one.
pub fn compute_retry_delay(attempt: u32, plan: &DownloadPlan, random: Binary64) -> (r: Binary64)
    requires
        attempt >= 1,
        plan@.usable_delays(),
        random.bits <= ONE,
    ensures
        r@ == retry_delay(plan@, attempt as nat, random),
        r@ <= INFINITY,
        units(r@) >= backoff_units(
            attempt as nat,
            plan.retry_base_delay_seconds@,
            plan.retry_max_delay_seconds@,
        ),
        r@ <= nearest(
            backoff_units(
                attempt as nat,
                plan.retry_base_delay_seconds@,
                plan.retry_max_delay_seconds@,
            ) + units(plan.retry_jitter_seconds@),
            1,
        ),
{
    let delay: Binary64 = backoff(
        attempt,
        plan.retry_base_delay_seconds,
        plan.retry_max_delay_seconds,
    );
    let r: Binary64 = add_jitter(delay, plan.retry_jitter_seconds, random);
    proof {
        crate::binary64::lemma_exact_difference(delay@, 0, delay@);
        crate::binary64::units_are_ordered(delay@, r@);
        let jitter = plan.retry_jitter_seconds@;
        if jitter > 0 {
            crate::pacing::lemma_part_of_jitter(jitter, random@);
            let extra = product(random@, jitter);
            crate::binary64::units_are_ordered(extra, jitter);
            nearest_keeps_order(units(delay@) + units(extra), units(delay@) + units(jitter), 1);
        } else {
            nearest_keeps_order(units(delay@), units(delay@) + units(jitter), 1);
        }
    }
    r
}

/// What an attempt's end means for its task.
pub open spec fn attempt_result(action: AttemptAction) -> Option<TaskEvent> {
    match action {
        AttemptAction::Succeed(length) => Some(TaskEvent::Fetched(length)),
        AttemptAction::Fail(failure) => Some(
            TaskEvent::AttemptFailed {
                retryable: worth_retrying(failure),
                cancelled: called_off(failure),
            },
        ),
        _ => None,
    }
}

/// Tells a task how its attempt ended; nothing while it goes on.
pub fn outcome_of_attempt(action: AttemptAction) -> (r: Option<TaskEvent>)
    ensures
        r == attempt_result(action),
{
    match action {
        AttemptAction::Succeed(length) => Some(TaskEvent::Fetched(length)),
        AttemptAction::Fail(failure) => {
            let retryable: bool = match failure {
                AttemptFailure::Request => true,
                AttemptFailure::Status(status) => crate::attempt::is_retryable_status(status),
                AttemptFailure::Stream => true,
                AttemptFailure::Empty => true,
                AttemptFailure::Incomplete { .. } => true,
                _ => false,
            };
            let cancelled: bool = matches!(
                failure,
                AttemptFailure::Cancelled | AttemptFailure::CancelledInTransfer
            );
            Some(TaskEvent::AttemptFailed { retryable, cancelled })
        },
        _ => None,
    }
}

/// Why a task was given up, in words; `detail` is what the last attempt or the move said.
pub open spec fn task_failure_text(failure: TaskFailure, detail: Seq<char>) -> Seq<char> {
    match failure {
        TaskFailure::Unnamed => "Task is missing url or path"@,
        TaskFailure::NoAttempts => ""@,
        TaskFailure::Attempt => detail,
        TaskFailure::Promotion => "Unable to promote temp file: "@ + detail,
    }
}

/// Puts into words why a task was given up.
pub fn describe_task_failure(failure: TaskFailure, detail: &str) -> (r: String)
    ensures
        r@ == task_failure_text(failure, detail@),
{
    match failure {
        TaskFailure::Unnamed => "Task is missing url or path".to_owned(),
        TaskFailure::NoAttempts => "".to_owned(),
        TaskFailure::Attempt => detail.to_owned(),
        TaskFailure::Promotion => {
            let mut message: String = "Unable to promote temp file: ".to_owned();
            message.append(detail);
            message
        },
    }
}

/// The bytes of the files that are in their place, after one more task has ended.
pub open spec fn bytes_after(bytes: i64, outcome: TaskOutcome) -> i64 {
    match outcome {
        TaskOutcome::Skipped(n) => vstd::wrapping::i64_specs::wrapping_add(bytes, n as i64),
        TaskOutcome::Completed(n) => vstd::wrapping::i64_specs::wrapping_add(bytes, n as i64),
        _ => bytes,
    }
}

/// Whether a task that ended so has finished: all have but those that were called off.
pub open spec fn finishes(outcome: TaskOutcome) -> bool {
    !(outcome is Abandoned)
}

/// Whether a run is another one after the task at a position has ended.
pub open spec fn settled(
    before: DownloadRunner,
    after: DownloadRunner,
    index: int,
    outcome: TaskOutcome,
) -> bool {
    &&& after == (DownloadRunner {
        completed_count: (before.completed_count + if outcome is Completed {
            1int
        } else {
            0
        }) as u32,
        failed_count: (before.failed_count + if outcome is Failed {
            1int
        } else {
            0
        }) as u32,
        finished: after.finished,
        ended_count: (before.ended_count + if finishes(outcome) {
            1int
        } else {
            0
        }) as usize,
        completed_bytes: bytes_after(before.completed_bytes, outcome),
        ..before
    })
    &&& after.finished@ == if finishes(outcome) {
        before.finished@.update(index, true)
    } else {
        before.finished@
    }
}

/// How the tasks that ended did so, without their positions.
pub open spec fn outcomes_of(ends: Seq<(usize, TaskOutcome)>) -> Seq<TaskOutcome> {
    ends.map_values(|end: (usize, TaskOutcome)| end.1)
}

/// Whether the task at a position is among those that ended, and has finished.
pub open spec fn has_finished(ends: Seq<(usize, TaskOutcome)>, index: int) -> bool {
    exists|k: int| 0 <= k < ends.len() && (#[trigger] ends[k]).0 == index && finishes(ends[k].1)
}

proof fn lemma_one_more_end(ends: Seq<(usize, TaskOutcome)>, end: (usize, TaskOutcome))
    ensures
        outcomes_of(ends.push(end)) == outcomes_of(ends).push(end.1),
        outcomes_of(ends.push(end)).drop_last() == outcomes_of(ends),
        forall|i: int| #[trigger]
            has_finished(ends.push(end), i) <==> has_finished(ends, i) || (i == end.0 && finishes(end.1)),
{
    let more = ends.push(end);
    assert(outcomes_of(more) =~= outcomes_of(ends).push(end.1));
    assert(outcomes_of(more).drop_last() =~= outcomes_of(ends));
    assert forall|i: int| #[trigger]
        has_finished(more, i) <==> has_finished(ends, i) || (i == end.0 && finishes(end.1)) by {
        if has_finished(more, i) {
            let k = choose|k: int|
                0 <= k < more.len() && (#[trigger] more[k]).0 == i && finishes(more[k].1);
            if k < ends.len() {
                assert(ends[k] == more[k]);
            }
        }
        if has_finished(ends, i) {
            let k = choose|k: int|
                0 <= k < ends.len() && (#[trigger] ends[k]).0 == i && finishes(ends[k].1);
            assert(more[k] == ends[k]);
        }
        if i == end.0 && finishes(end.1) {
            assert(more[ends.len() as int] == end);
        }
    }
}

impl DownloadRunner {
    /// Whether the run has counted tasks that ended so, each given with its position.
    pub open spec fn counts(self, ends: Seq<(usize, TaskOutcome)>) -> bool {
        &&& self.well_formed()
        &&& self.completed_count == tally(outcomes_of(ends)).0
        &&& self.failed_count == tally(outcomes_of(ends)).1
        &&& self.completed_bytes == bytes_in_place(outcomes_of(ends))
        &&& forall|i: int|
            0 <= i < self.plan@.tasks.len() ==> (#[trigger] self.finished@[i] <==> has_finished(
                ends,
                i,
            ))
    }

    /// Counts how a task ended and tells of it: the progress that its file makes, or its failure, and
    /// with the last one that all tasks have finished. A task that was called off is neither counted
    /// nor told of.
    pub fn settle(
        &mut self,
        index: usize,
        outcome: TaskOutcome,
        path: &str,
        detail: &str,
        elapsed: Binary64,
        run_elapsed: Binary64,
        now_ms: u64,
    ) -> (r: Settled)
        requires
            old(self).well_formed(),
            index < old(self).plan@.tasks.len(),
            !old(self).finished@[index as int],
            old(self).completed_count + old(self).failed_count < u32::MAX,
            run_elapsed.finite(),
        ensures
            settled(*old(self), *final(self), index as int, outcome),
            final(self).well_formed(),
            forall|ends: Seq<(usize, TaskOutcome)>| #[trigger]
                old(self).counts(ends) ==> final(self).counts(ends.push((index, outcome))),
            match outcome {
                TaskOutcome::Abandoned => r.told is None,
                TaskOutcome::Skipped(length) => r.told matches Some(e) && e.kind() == "summary"@
                    && e.body() == final(self).file_body(
                    index as int,
                    path@,
                    length,
                    true,
                    elapsed,
                    now_ms,
                ),
                TaskOutcome::Completed(length) => r.told matches Some(e) && e.kind() == "summary"@
                    && e.body() == final(self).file_body(
                    index as int,
                    path@,
                    length,
                    false,
                    elapsed,
                    now_ms,
                ),
                TaskOutcome::Failed(failure) => r.told matches Some(e) && e.kind() == "error"@
                    && e.body() == failed_body(
                    old(self).plan@,
                    old(self).plan@.tasks[index as int],
                    (final(self).completed_count + final(self).failed_count) as nat,
                    task_failure_text(failure, detail@),
                    elapsed,
                ),
            },
            r.completed is Some <==> final(self).all_finished(),
            r.completed is Some <==> final(self).ended_count == final(self).plan@.tasks.len(),
            r.completed matches Some(e) ==> e.kind() == "completed"@ && e.body() == completed_body(
                final(self).plan@,
                final(self).completed_count,
                final(self).failed_count,
                final(self).skipped_of(final(self).ended_count),
                final(self).completed_bytes,
                run_time(run_elapsed),
            ),
    {
        proof {
            assert(self.plan@.tasks.len() == self.plan.tasks.len());
        }
        let told: Option<Event> = match outcome {
            TaskOutcome::Abandoned => None,
            TaskOutcome::Skipped(length) => {
                let event: Event = self.register_completion(
                    index,
                    path,
                    length,
                    true,
                    elapsed,
                    now_ms,
                );
                Some(event)
            },
            TaskOutcome::Completed(length) => {
                let event: Event = self.register_completion(
                    index,
                    path,
                    length,
                    false,
                    elapsed,
                    now_ms,
                );
                Some(event)
            },
            TaskOutcome::Failed(failure) => {
                let message: String = describe_task_failure(failure, detail);
                let event: Event = self.register_failure(index, message.as_str(), elapsed);
                Some(event)
            },
        };
        proof {
            lemma_all_marked(self.finished@);
            assert forall|ends: Seq<(usize, TaskOutcome)>| #[trigger]
                old(self).counts(ends) implies self.counts(ends.push((index, outcome))) by {
                lemma_one_more_end(ends, (index, outcome));
            }
        }
        let completed: Option<Event> = if self.ended_count == self.plan.tasks.len() {
            Some(
                tell_completed(
                    &self.plan,
                    self.completed_count,
                    self.failed_count,
                    count_left_over(self.completed_count, self.failed_count, self.ended_count as u32),
                    self.completed_bytes,
                    run_elapsed.at_least(Binary64 { bits: THOUSANDTH }),
                ),
            )
        } else {
            None
        };
        Settled { told, completed }
    }
}

/// How many tasks of a run were completed and how many failed, given how each ended.
pub open spec fn tally(outcomes: Seq<TaskOutcome>) -> (nat, nat)
    decreases outcomes.len(),
{
    if outcomes.len() == 0 {
        (0, 0)
    } else {
        let (completed, failed) = tally(outcomes.drop_last());
        match outcomes.last() {
            TaskOutcome::Completed(_) => (completed + 1, failed),
            TaskOutcome::Failed(_) => (completed, failed + 1),
            _ => (completed, failed),
        }
    }
}

/// The bytes of the files that are in their place, given how each task ended.
pub open spec fn bytes_in_place(outcomes: Seq<TaskOutcome>) -> i64
    decreases outcomes.len(),
{
    if outcomes.len() == 0 {
        0
    } else {
        bytes_after(bytes_in_place(outcomes.drop_last()), outcomes.last())
    }
}

/// How many tasks of a run were there already or were called off, given how each ended.
pub open spec fn passed_over(outcomes: Seq<TaskOutcome>) -> nat
    decreases outcomes.len(),
{
    if outcomes.len() == 0 {
        0
    } else {
        passed_over(outcomes.drop_last()) + match outcomes.last() {
            TaskOutcome::Skipped(_) => 1nat,
            TaskOutcome::Abandoned => 1,
            _ => 0,
        }
    }
}

proof fn lemma_tally(outcomes: Seq<TaskOutcome>)
    ensures
        tally(outcomes).0 + tally(outcomes).1 + passed_over(outcomes) == outcomes.len(),
    decreases outcomes.len(),
{
    if outcomes.len() > 0 {
        lemma_tally(outcomes.drop_last());
    }
}

/// How many of a row of marks are set.
pub open spec fn marked(marks: Seq<bool>) -> nat
    decreases marks.len(),
{
    if marks.len() == 0 {
        0
    } else {
        marked(marks.drop_last()) + if marks.last() {
            1nat
        } else {
            0
        }
    }
}

proof fn lemma_none_marked(marks: Seq<bool>)
    requires
        forall|i: int| 0 <= i < marks.len() ==> !#[trigger] marks[i],
    ensures
        marked(marks) == 0,
    decreases marks.len(),
{
    if marks.len() > 0 {
        lemma_none_marked(marks.drop_last());
    }
}

proof fn lemma_marked_bounds(marks: Seq<bool>)
    ensures
        marked(marks) <= marks.len(),
    decreases marks.len(),
{
    if marks.len() > 0 {
        lemma_marked_bounds(marks.drop_last());
    }
}

proof fn lemma_all_marked(marks: Seq<bool>)
    ensures
        marked(marks) == marks.len() <==> forall|i: int| 0 <= i < marks.len() ==> #[trigger] marks[i],
    decreases marks.len(),
{
    if marks.len() > 0 {
        let front = marks.drop_last();
        lemma_all_marked(front);
        lemma_marked_bounds(front);
        if marked(marks) == marks.len() {
            assert forall|i: int| 0 <= i < marks.len() implies #[trigger] marks[i] by {
                if i < front.len() {
                    assert(front[i]);
                }
            }
        }
        if forall|i: int| 0 <= i < marks.len() ==> #[trigger] marks[i] {
            assert forall|i: int| 0 <= i < front.len() implies #[trigger] front[i] by {
                assert(marks[i]);
            }
            assert(marks[marks.len() - 1]);
        }
    }
}

proof fn lemma_one_more_marked(marks: Seq<bool>, index: int)
    requires
        0 <= index < marks.len(),
        !marks[index],
    ensures
        marked(marks.update(index, true)) == marked(marks) + 1,
        marked(marks) < marks.len(),
    decreases marks.len(),
{
    let front = marks.drop_last();
    let more = marks.update(index, true);
    lemma_marked_bounds(front);
    if index == front.len() {
        assert(more.drop_last() =~= front);
    } else {
        lemma_one_more_marked(front, index);
        assert(more.drop_last() =~= front.update(index, true));
    }
}

/// That a plan is completed is told with the end of a task exactly when at every position of the plan
/// there is a task among those that ended which has finished.
pub proof fn completion_is_told_when_all_have_finished(
    runner: DownloadRunner,
    ends: Seq<(usize, TaskOutcome)>,
)
    requires
        runner.counts(ends),
    ensures
        runner.all_finished() <==> forall|i: int|
            0 <= i < runner.plan@.tasks.len() ==> #[trigger] has_finished(ends, i),
        runner.all_finished() <==> runner.ended_count == runner.plan@.tasks.len(),
{
    lemma_all_marked(runner.finished@);
    if runner.all_finished() {
        assert forall|i: int| 0 <= i < runner.plan@.tasks.len() implies #[trigger] has_finished(
            ends,
            i,
        ) by {
            assert(runner.finished@[i]);
        }
    }
    if forall|i: int| 0 <= i < runner.plan@.tasks.len() ==> #[trigger] has_finished(ends, i) {
        assert forall|i: int|
            0 <= i < runner.plan@.tasks.len() implies #[trigger] runner.finished@[i] by {
            assert(has_finished(ends, i));
        }
    }
}

/// Whether each task of a number of tasks ended at most once.
pub open spec fn each_once(ends: Seq<(usize, TaskOutcome)>, total: nat) -> bool {
    &&& forall|k: int| 0 <= k < ends.len() ==> (#[trigger] ends[k]).0 < total
    &&& forall|j: int, k: int|
        0 <= j < k < ends.len() ==> (#[trigger] ends[j]).0 != (#[trigger] ends[k]).0
}

/// Where as many tasks ended as there are, and none of them twice, every one of them did.
pub proof fn every_position_has_ended(ends: Seq<(usize, TaskOutcome)>, total: nat, index: int)
    requires
        each_once(ends, total),
        ends.len() == total,
        0 <= index < total,
    ensures
        exists|k: int| 0 <= k < ends.len() && (#[trigger] ends[k]).0 == index,
{
    let positions = Seq::new(ends.len(), |k: int| ends[k].0 as int);
    let all = vstd::set_lib::set_int_range(0, total as int);
    vstd::set_lib::lemma_int_range(0, total as int);
    assert(positions.no_duplicates());
    positions.unique_seq_to_set();
    assert(positions.to_set().subset_of(all)) by {
        assert forall|x: int| positions.to_set().contains(x) implies all.contains(x) by {
            assert(positions.contains(x));
            let k = choose|k: int| 0 <= k < positions.len() && positions[k] == x;
            assert(ends[k].0 < total);
        }
    }
    vstd::set_lib::lemma_subset_equality(positions.to_set(), all);
    assert(positions.to_set().contains(index));
    assert(positions.contains(index));
    let k = choose|k: int| 0 <= k < positions.len() && positions[k] == index;
    assert(ends[k].0 == index);
}

/// When every task has ended, each once, the summary accounts for all of them: those completed, those
/// failed, and as skipped those that were there already or were called off, and for the bytes of all
/// files that are in their place.
pub proof fn the_summary_accounts_for_every_task(
    runner: DownloadRunner,
    ends: Seq<(usize, TaskOutcome)>,
    now_ms: u64,
    elapsed: Binary64,
)
    requires
        runner.counts(ends),
        each_once(ends, runner.plan@.tasks.len()),
        ends.len() == runner.plan@.tasks.len(),
        ends.len() <= u32::MAX,
    ensures
        ({
            let outcomes = outcomes_of(ends);
            let body = summary_body(
                runner.plan@,
                runner.completed_count,
                runner.failed_count,
                runner.skipped_of(runner.plan.tasks.len()),
                runner.completed_bytes,
                run_time(elapsed),
                runner.speed.current_rate(now_ms),
            );
            &&& tally(outcomes).0 + tally(outcomes).1 + passed_over(outcomes)
                == runner.plan@.tasks.len()
            &&& body[1] == ("completed"@, FieldView::Count(tally(outcomes).0 as u64))
            &&& body[2] == ("failed"@, FieldView::Count(tally(outcomes).1 as u64))
            &&& body[3] == ("skipped"@, FieldView::Count(passed_over(outcomes) as u64))
            &&& body[4] == ("total"@, FieldView::Count(ends.len() as u64))
            &&& body[5] == ("bytes"@, FieldView::Signed(bytes_in_place(outcomes)))
        }),
{
    lemma_tally(outcomes_of(ends));
}

/// A periodic summary shows the rate of the sample that it takes, if the clock has moved on since the
/// one before.
pub proof fn a_tick_shows_its_sample(
    runner: DownloadRunner,
    now_ms: u64,
    elapsed: Binary64,
)
    requires
        runner.speed.steady(),
        runner.speed.last_snapshot_ms == 0 || now_ms > runner.speed.last_snapshot_ms,
    ensures
        ({
            let after = DownloadRunner { speed: runner.speed.sampled(now_ms), ..runner };
            after.snapshot_body(now_ms, elapsed)[8] == (
                "speed"@,
                FieldView::Text(
                    speed_text(Binary64 { bits: runner.speed.sampled_rate(now_ms) as u64 }),
                ),
            )
        }),
{
    crate::speed::a_read_gives_the_sample_before_it(runner.speed, now_ms);
}

/// A task counts as completed only with a whole file: given how the attempt that fetched it went, the
/// response was a success, and the file is the part that was kept and the bytes that came, as many as
/// were announced.
pub proof fn a_completed_task_has_a_whole_file(
    retry_count: u32,
    events: Seq<(TaskEvent, bool)>,
    length: u64,
    task_has_range: bool,
    transfer: Seq<(AttemptEvent, bool)>,
)
    requires
        task::answers(retry_count, events),
        task::played(retry_count, events).1 == TaskAction::Finish(TaskOutcome::Completed(length)),
        attempt::answers(task_has_range, transfer),
        attempt_result(attempt::played(task_has_range, transfer).1) == Some(
            events[events.len() - 2].0,
        ),
    ensures
        length > 0,
        attempt::response_got(transfer) matches Some((status, announced)) && attempt::success(status)
            && {
            let kept = attempt::part_kept(task_has_range, attempt::part_found(transfer), status);
            &&& length == kept + attempt::bytes_written(task_has_range, transfer)
            &&& announced matches Some(n) ==> length == kept + n
        },
{
    task::completion_needs_a_fetched_file(retry_count, events, length);
    attempt::a_fetched_file_is_whole(task_has_range, transfer, length);
}

} // verus!
