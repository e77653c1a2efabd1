//! What the events of a run tell: of the file, the task and the run that they are about.

use vstd::prelude::*;

use crate::attempt::{AttemptAction, AttemptFailure};
use crate::binary64::{gap, nearest_exists, one, quotient, rounded, small_integers_are_exact, the_nearest_is_near,
    units, units_are_ordered, Binary64, BINADE, INFINITY};
use crate::events::{Event, FieldView};
use crate::format::{size_text, speed_text};
use crate::headers::Warning;
use crate::models::{PlanView, TaskView};
use crate::pacing::{backoff_units, hundredths, hundredths_are_near, ONE};
use crate::progress::{a_count_shows_its_numbers, count_text, percentage,
    percentage_is_within_bounds, remaining_seconds, size_progress, the_percentage_is_the_nearest};
use crate::runner::{attempt_result, average_text, bytes_after, completed_body, failed_body, finishes, left_over,
    retry_body, retry_delay, run_time, settled, start_body, summary_body, tally, task_failure_text,
    DownloadRunner, THOUSANDTH};
use crate::task::{TaskEvent, TaskFailure, TaskOutcome};
use crate::text::reading;

verus! {

/// Whether an event has a member of a name with a value.
pub open spec fn says(body: Seq<(Seq<char>, FieldView)>, name: Seq<char>, value: FieldView) -> bool {
    exists|i: int| 0 <= i < body.len() && #[trigger] body[i] == (name, value)
}

/// The event of a file tells of that file and of no other, whatever the run has counted: its path, address
/// and length, whether it was there, how long it took, and as its size that of its own length.
pub proof fn a_file_event_tells_of_its_file(
    run: DownloadRunner,
    index: int,
    path: Seq<char>,
    bytes: u64,
    skipped: bool,
    elapsed: Binary64,
    now_ms: u64,
)
    requires
        bytes <= i64::MAX,
    ensures
        ({
            let body = run.file_body(index, path, bytes, skipped, elapsed, now_ms);
            &&& says(body, "path"@, FieldView::Text(path))
            &&& says(body, "url"@, FieldView::Text(run.plan@.tasks[index].url))
            &&& says(body, "bytes"@, FieldView::Count(bytes))
            &&& says(body, "final_size"@, FieldView::Text(size_text(bytes as int)))
            &&& says(body, "skipped"@, FieldView::Flag(skipped))
            &&& says(body, "elapsed_seconds"@, FieldView::Number(elapsed))
        }),
{
    let body = run.file_body(index, path, bytes, skipped, elapsed, now_ms);
    assert(body[6] == ("final_size"@, FieldView::Text(size_text(bytes as int))));
    assert(body[8] == ("path"@, FieldView::Text(path)));
    assert(body[9] == ("url"@, FieldView::Text(run.plan@.tasks[index].url)));
    assert(body[10] == ("bytes"@, FieldView::Count(bytes)));
    assert(body[11] == ("skipped"@, FieldView::Flag(skipped)));
    assert(body[12] == ("elapsed_seconds"@, FieldView::Number(elapsed)));
}

/// Two runs tell of the same file of the same task alike, whatever else they have counted.
pub proof fn a_file_is_told_alike_by_every_run(
    one_run: DownloadRunner,
    other: DownloadRunner,
    index: int,
    path: Seq<char>,
    bytes: u64,
    skipped: bool,
    elapsed: Binary64,
    one_ms: u64,
    other_ms: u64,
)
    requires
        one_run.plan@.tasks[index] == other.plan@.tasks[index],
    ensures
        ({
            let a = one_run.file_body(index, path, bytes, skipped, elapsed, one_ms);
            let b = other.file_body(index, path, bytes, skipped, elapsed, other_ms);
            &&& a.len() == b.len()
            &&& forall|i: int|
                0 <= i < a.len() && (a[i].0 == "final_size"@ || a[i].0 == "bytes"@ || a[i].0 == "path"@
                    || a[i].0 == "url"@ || a[i].0 == "skipped"@ || a[i].0 == "elapsed_seconds"@)
                    ==> #[trigger] a[i] == b[i]
        }),
{
    reveal_strlit("task_key");
    reveal_strlit("label");
    reveal_strlit("display_label");
    reveal_strlit("pct");
    reveal_strlit("segments");
    reveal_strlit("size");
    reveal_strlit("speed");
    reveal_strlit("eta_seconds");
    reveal_strlit("final_size");
    reveal_strlit("bytes");
    reveal_strlit("path");
    reveal_strlit("url");
    reveal_strlit("skipped");
    reveal_strlit("elapsed_seconds");
    let a = one_run.file_body(index, path, bytes, skipped, elapsed, one_ms);
    let b = other.file_body(index, path, bytes, skipped, elapsed, other_ms);
    assert forall|i: int|
        0 <= i < a.len() && (a[i].0 == "final_size"@ || a[i].0 == "bytes"@ || a[i].0 == "path"@ || a[i].0
            == "url"@ || a[i].0 == "skipped"@ || a[i].0 == "elapsed_seconds"@) implies #[trigger] a[i]
        == b[i] by {
        let mark = (a[i].0.len(), a[i].0[0]);
        assert("final_size"@.len() == 10 && "bytes"@.len() == 5 && "path"@.len() == 4 && "url"@.len() == 3
            && "skipped"@.len() == 7 && "elapsed_seconds"@.len() == 15);
        assert("bytes"@[0] == 'b' && "path"@[0] == 'p' && "url"@[0] == 'u');
        assert("task_key"@.len() == 8 && "label"@.len() == 5 && "label"@[0] == 'l'
            && "display_label"@.len() == 13 && "pct"@.len() == 3 && "pct"@[0] == 'p' && "segments"@.len()
            == 8 && "size"@.len() == 4 && "size"@[0] == 's' && "speed"@.len() == 5 && "speed"@[0] == 's'
            && "eta_seconds"@.len() == 11);
    }
}

/// The event of a file tells how far the run has come: the percentage is the one nearest to the part of the
/// tasks that are completed, the count shows both numbers, the size shows the bytes of all files so far and
/// those to be expected, and the speed and the time to go are the current ones.
pub proof fn a_file_event_tells_of_the_run(
    run: DownloadRunner,
    index: int,
    path: Seq<char>,
    bytes: u64,
    skipped: bool,
    elapsed: Binary64,
    now_ms: u64,
)
    requires
        0 < run.plan@.tasks.len() < 2 * BINADE,
        run.completed_count <= run.plan@.tasks.len(),
    ensures
        ({
            let body = run.file_body(index, path, bytes, skipped, elapsed, now_ms);
            let total = run.plan@.tasks.len();
            &&& exists|v: u64| #[trigger]
                says(body, "pct"@, FieldView::Count(v)) && v <= 100 && 2 * gap(
                    (v * total) as int,
                    (100 * run.completed_count) as int,
                ) <= total
            &&& exists|t: Seq<char>, at: int| #[trigger]
                says(body, "segments"@, FieldView::Text(t)) && 0 < at < t.len() && #[trigger] t[at] == '/'
                    && reading(t.take(at)) == run.completed_count && reading(t.skip(at + 1)) == total
            &&& says(
                body,
                "size"@,
                FieldView::Text(
                    size_progress(run.completed_bytes as int, run.completed_count as nat, total),
                ),
            )
            &&& says(
                body,
                "speed"@,
                FieldView::Text(
                    speed_text(Binary64 { bits: run.speed.current_rate(now_ms) as u64 }),
                ),
            )
            &&& says(
                body,
                "eta_seconds"@,
                match remaining_seconds(
                    run.completed_bytes as int,
                    run.completed_count as nat,
                    total,
                    run.speed.current_rate(now_ms),
                ) {
                    Some(seconds) => FieldView::Number(Binary64 { bits: seconds as u64 }),
                    None => FieldView::Null,
                },
            )
        }),
{
    let body = run.file_body(index, path, bytes, skipped, elapsed, now_ms);
    let total = run.plan@.tasks.len();
    lemma_percent(run.completed_count as nat, total);
    let pct = percentage(run.completed_count as nat, total) as u64;
    assert(body[3] == ("pct"@, FieldView::Count(pct)));
    assert(says(body, "pct"@, FieldView::Count(pct)));
    lemma_segments(body, 4, run.completed_count as nat, total);
    assert(body[5] == (
        "size"@,
        FieldView::Text(size_progress(run.completed_bytes as int, run.completed_count as nat, total)),
    ));
    assert(body[7] == (
        "speed"@,
        FieldView::Text(speed_text(Binary64 { bits: run.speed.current_rate(now_ms) as u64 })),
    ));
    assert(body[13].0 == "eta_seconds"@);
}

proof fn lemma_percent(processed: nat, total: nat)
    requires
        0 < total < 2 * BINADE,
        processed <= total,
        processed <= u32::MAX,
    ensures
        percentage(processed, total) <= 100,
        2 * gap((percentage(processed, total) * total) as int, (100 * processed) as int) <= total,
{
    percentage_is_within_bounds(processed, total);
    the_percentage_is_the_nearest(processed, total);
}

proof fn lemma_segments(body: Seq<(Seq<char>, FieldView)>, i: int, processed: nat, total: nat)
    requires
        0 <= i < body.len(),
        body[i] == ("segments"@, FieldView::Text(count_text(processed, total))),
    ensures
        exists|t: Seq<char>, at: int| #[trigger]
            says(body, "segments"@, FieldView::Text(t)) && 0 < at < t.len() && #[trigger] t[at] == '/'
                && reading(t.take(at)) == processed && reading(t.skip(at + 1)) == total,
{
    a_count_shows_its_numbers(processed, total);
    let t = count_text(processed, total);
    assert(says(body, "segments"@, FieldView::Text(t)));
    let at = choose|at: int|
        0 < at < t.len() && #[trigger] t[at] == '/' && reading(t.take(at)) == processed && reading(
            t.skip(at + 1),
        ) == total;
    assert(t[at] == '/');
}

/// The event of a failed task tells of that task and of its failure, and how far the run has come with it:
/// the percentage is the one nearest to the part of the tasks that are over, and the count shows both
/// numbers.
pub proof fn a_failure_event_tells_of_its_task(
    plan: PlanView,
    task: TaskView,
    processed: nat,
    message: Seq<char>,
    elapsed: Binary64,
)
    requires
        0 < plan.tasks.len() < 2 * BINADE,
        processed <= plan.tasks.len(),
        processed <= u32::MAX,
    ensures
        ({
            let body = failed_body(plan, task, processed, message, elapsed);
            let total = plan.tasks.len();
            &&& says(body, "path"@, FieldView::Text(task.path))
            &&& says(body, "url"@, FieldView::Text(task.url))
            &&& says(body, "message"@, FieldView::Text(message))
            &&& says(body, "elapsed_seconds"@, FieldView::Number(elapsed))
            &&& exists|v: u64| #[trigger]
                says(body, "pct"@, FieldView::Count(v)) && v <= 100 && 2 * gap(
                    (v * total) as int,
                    (100 * processed) as int,
                ) <= total
            &&& exists|t: Seq<char>, at: int| #[trigger]
                says(body, "segments"@, FieldView::Text(t)) && 0 < at < t.len() && #[trigger] t[at] == '/'
                    && reading(t.take(at)) == processed && reading(t.skip(at + 1)) == total
        }),
{
    let body = failed_body(plan, task, processed, message, elapsed);
    let total = plan.tasks.len();
    lemma_percent(processed, total);
    let pct = percentage(processed, total) as u64;
    assert(body[3] == ("pct"@, FieldView::Count(pct)));
    assert(says(body, "pct"@, FieldView::Count(pct)));
    lemma_segments(body, 4, processed, total);
    assert(body[5] == ("path"@, FieldView::Text(task.path)));
    assert(body[6] == ("url"@, FieldView::Text(task.url)));
    assert(body[7] == ("message"@, FieldView::Text(message)));
    assert(body[8] == ("elapsed_seconds"@, FieldView::Number(elapsed)));
}

/// The events of a task carry its own key and labels where it has them, and else those of the plan.
pub proof fn events_carry_the_task_s_own_names(
    run: DownloadRunner,
    index: int,
    path: Seq<char>,
    bytes: u64,
    skipped: bool,
    elapsed: Binary64,
    now_ms: u64,
    processed: nat,
    message: Seq<char>,
)
    ensures
        ({
            let plan = run.plan@;
            let task = plan.tasks[index];
            let key = FieldView::Text(
                if task.task_key is Some {
                    task.task_key->0
                } else {
                    plan.task_key
                },
            );
            let label = if task.label is Some {
                FieldView::Text(task.label->0)
            } else if plan.label is Some {
                FieldView::Text(plan.label->0)
            } else {
                FieldView::Null
            };
            let display = if task.display_label is Some {
                FieldView::Text(task.display_label->0)
            } else if plan.display_label is Some {
                FieldView::Text(plan.display_label->0)
            } else {
                FieldView::Null
            };
            let a = run.file_body(index, path, bytes, skipped, elapsed, now_ms);
            let b = failed_body(plan, task, processed, message, elapsed);
            let c = start_body(plan, task, path);
            &&& says(a, "task_key"@, key) && says(b, "task_key"@, key) && says(c, "task_key"@, key)
            &&& says(a, "label"@, label) && says(b, "label"@, label) && says(c, "label"@, label)
            &&& says(a, "display_label"@, display) && says(b, "display_label"@, display) && says(
                c,
                "display_label"@,
                display,
            )
        }),
{
    let plan = run.plan@;
    let task = plan.tasks[index];
    let a = run.file_body(index, path, bytes, skipped, elapsed, now_ms);
    let b = failed_body(plan, task, processed, message, elapsed);
    let c = start_body(plan, task, path);
    assert(a[0].0 == "task_key"@ && a[1].0 == "label"@ && a[2].0 == "display_label"@);
    assert(b[0].0 == "task_key"@ && b[1].0 == "label"@ && b[2].0 == "display_label"@);
    assert(c[1].0 == "task_key"@ && c[2].0 == "label"@ && c[3].0 == "display_label"@);
}

/// A failed attempt is told with the key and labels that the task has itself, and the end of the plan with
/// those of the plan.
pub proof fn other_events_carry_one_s_own_names(
    plan: PlanView,
    task: TaskView,
    path: Seq<char>,
    attempt: u32,
    delay: Binary64,
    message: Seq<char>,
    completed: u32,
    failed: u32,
    skipped: int,
    bytes: i64,
    time: Binary64,
)
    ensures
        ({
            let a = retry_body(plan, task, path, attempt, delay, message, time);
            let b = completed_body(plan, completed, failed, skipped, bytes, time);
            &&& task.task_key is Some ==> says(a, "task_key"@, FieldView::Text(task.task_key->0))
            &&& task.task_key is None ==> says(a, "task_key"@, FieldView::Null)
            &&& task.label is Some ==> says(a, "label"@, FieldView::Text(task.label->0))
            &&& task.label is None ==> says(a, "label"@, FieldView::Null)
            &&& task.display_label is Some ==> says(
                a,
                "display_label"@,
                FieldView::Text(task.display_label->0),
            )
            &&& task.display_label is None ==> says(a, "display_label"@, FieldView::Null)
            &&& says(b, "task_key"@, FieldView::Text(plan.task_key))
            &&& plan.label is Some ==> says(b, "label"@, FieldView::Text(plan.label->0))
            &&& plan.label is None ==> says(b, "label"@, FieldView::Null)
            &&& plan.display_label is Some ==> says(
                b,
                "display_label"@,
                FieldView::Text(plan.display_label->0),
            )
            &&& plan.display_label is None ==> says(b, "display_label"@, FieldView::Null)
        }),
{
    let a = retry_body(plan, task, path, attempt, delay, message, time);
    let b = completed_body(plan, completed, failed, skipped, bytes, time);
    assert(a[0].0 == "task_key"@ && a[1].0 == "label"@ && a[2].0 == "display_label"@);
    assert(b[0].0 == "task_key"@ && b[1].0 == "label"@ && b[2].0 == "display_label"@);
}

/// A run counts as no shorter than a thousandth of a second: the number that stands for that is one, but for
/// less than one part in two to the power of 52.
pub proof fn the_shortest_run_is_a_thousandth()
    ensures
        BINADE * gap((1000 * units(THOUSANDTH as nat)) as int, one() as int) <= one(),
{
    let w = vstd::arithmetic::power2::pow2(1012);
    vstd::arithmetic::power2::lemma_pow2_adds(62, 1012);
    vstd::arithmetic::power2::lemma2_to64_rest();
    assert(THOUSANDTH as nat / BINADE as nat == 1013);
    assert(THOUSANDTH as nat % BINADE as nat == 0x0_624d_d2f1_a9fc);
    assert(units(THOUSANDTH as nat) == 0x10_624d_d2f1_a9fc * w);
    assert(one() == 0x4000_0000_0000_0000 * w);
    assert(1000 * units(THOUSANDTH as nat) == one() + 96 * w);
}

/// The event of a beginning download tells of its task and of how the plan is run.
pub proof fn a_start_event_tells_of_its_task(plan: PlanView, task: TaskView, path: Seq<char>)
    requires
        plan.tasks.len() <= u64::MAX,
    ensures
        ({
            let body = start_body(plan, task, path);
            &&& says(body, "project"@, FieldView::Text(plan.project))
            &&& says(body, "path"@, FieldView::Text(path))
            &&& says(body, "url"@, FieldView::Text(task.url))
            &&& says(body, "task_count"@, FieldView::Count(plan.tasks.len() as u64))
            &&& says(body, "concurrency"@, FieldView::Count(plan.concurrency as u64))
            &&& says(body, "max_redirects"@, FieldView::Count(plan.max_redirects as u64))
            &&& says(body, "verify_tls"@, FieldView::Flag(plan.verify_tls))
        }),
{
    let body = start_body(plan, task, path);
    assert(body[0].0 == "project"@ && body[4].0 == "path"@ && body[5].0 == "url"@ && body[6].0
        == "task_count"@ && body[7].0 == "concurrency"@ && body[8].0 == "max_redirects"@ && body[9].0
        == "verify_tls"@);
}

/// The event of a failed attempt tells its number and how many there are, what failed, and a delay that
/// differs from the one that is waited by no more than six thousandths of a second.
pub proof fn a_retry_event_tells_of_its_attempt(
    plan: PlanView,
    task: TaskView,
    path: Seq<char>,
    attempt: u32,
    delay: Binary64,
    message: Seq<char>,
    elapsed: Binary64,
)
    ensures
        ({
            let body = retry_body(plan, task, path, attempt, delay, message, elapsed);
            &&& says(body, "attempt"@, FieldView::Count(attempt as u64))
            &&& says(body, "retry_count"@, FieldView::Count(plan.retry_count as u64))
            &&& says(body, "message"@, FieldView::Text(message))
            &&& says(body, "path"@, FieldView::Text(path))
            &&& says(body, "url"@, FieldView::Text(task.url))
            &&& says(body, "elapsed_seconds"@, FieldView::Number(elapsed))
            &&& delay@ < crate::binary64::power_pattern(40) ==> exists|x: Binary64| #[trigger]
                says(body, "retry_delay_seconds"@, FieldView::Number(x)) && 1000 * gap(
                    units(x@) as int,
                    units(delay@) as int,
                ) <= 6 * one()
        }),
{
    let body = retry_body(plan, task, path, attempt, delay, message, elapsed);
    assert(body[3].0 == "path"@ && body[4].0 == "url"@ && body[5].0 == "attempt"@ && body[6].0
        == "retry_count"@ && body[8].0 == "message"@ && body[9].0 == "elapsed_seconds"@);
    if delay@ < crate::binary64::power_pattern(40) {
        hundredths_are_near(delay@);
        lemma_hundredths_fit(delay@);
        let x = Binary64 { bits: hundredths(delay@) as u64 };
        assert(body[7] == ("retry_delay_seconds"@, FieldView::Number(x)));
        assert(says(body, "retry_delay_seconds"@, FieldView::Number(x)));
    }
}

proof fn lemma_hundredths_fit(p: nat)
    requires
        p < crate::binary64::power_pattern(40),
    ensures
        hundredths(p) <= INFINITY,
{
    hundredths_are_near(p);
    let n = choose|n: nat| hundredths(p) == #[trigger] crate::binary64::nearest(
        n * one() * one(),
        100 * one(),
    );
    vstd::arithmetic::power2::lemma_pow2_pos(1074);
    nearest_exists(n * one() * one(), 100 * one());
}

/// A summary tells what the run has counted, and the event that the plan is completed tells the same.
pub proof fn a_summary_tells_the_counts(
    plan: PlanView,
    completed: u32,
    failed: u32,
    skipped: int,
    bytes: i64,
    time: Binary64,
    rate: nat,
)
    requires
        0 <= skipped <= u32::MAX,
        plan.tasks.len() <= u64::MAX,
    ensures
        ({
            let a = summary_body(plan, completed, failed, skipped, bytes, time, rate);
            let b = completed_body(plan, completed, failed, skipped, bytes, time);
            let average = FieldView::Text(average_text(bytes as int, time));
            &&& says(a, "task_key"@, FieldView::Text(plan.task_key))
            &&& says(b, "task_key"@, FieldView::Text(plan.task_key))
            &&& says(a, "completed"@, FieldView::Count(completed as u64))
            &&& says(b, "completed"@, FieldView::Count(completed as u64))
            &&& says(a, "failed"@, FieldView::Count(failed as u64))
            &&& says(b, "failed"@, FieldView::Count(failed as u64))
            &&& says(a, "skipped"@, FieldView::Count(skipped as u64))
            &&& says(b, "skipped"@, FieldView::Count(skipped as u64))
            &&& says(a, "total"@, FieldView::Count(plan.tasks.len() as u64))
            &&& says(b, "total"@, FieldView::Count(plan.tasks.len() as u64))
            &&& says(a, "bytes"@, FieldView::Signed(bytes)) && says(b, "bytes"@, FieldView::Signed(bytes))
            &&& says(a, "average_speed"@, average) && says(b, "average_speed"@, average)
            &&& says(a, "elapsed_seconds"@, FieldView::Number(time))
            &&& says(b, "elapsed_seconds"@, FieldView::Number(time))
            &&& says(a, "speed"@, FieldView::Text(speed_text(Binary64 { bits: rate as u64 })))
        }),
{
    let a = summary_body(plan, completed, failed, skipped, bytes, time, rate);
    let b = completed_body(plan, completed, failed, skipped, bytes, time);
    assert(a[0].0 == "task_key"@ && a[1].0 == "completed"@ && a[2].0 == "failed"@ && a[3].0 == "skipped"@
        && a[4].0 == "total"@ && a[5].0 == "bytes"@ && a[6].0 == "average_speed"@ && a[7].0
        == "elapsed_seconds"@ && a[8].0 == "speed"@);
    assert(b[0].0 == "task_key"@ && b[3].0 == "completed"@ && b[4].0 == "failed"@ && b[5].0 == "skipped"@
        && b[6].0 == "total"@ && b[7].0 == "bytes"@ && b[8].0 == "average_speed"@ && b[9].0
        == "elapsed_seconds"@);
}

/// A snapshot tells the counts of its run: those completed and failed, and as skipped the others of those
/// that have finished; the time is that since the beginning, and at least a thousandth of a second.
pub proof fn a_snapshot_tells_of_its_run(run: DownloadRunner, now_ms: u64, elapsed: Binary64)
    requires
        run.ended_count <= u32::MAX,
        run.completed_count + run.failed_count <= run.ended_count,
        elapsed.bits <= INFINITY,
    ensures
        ({
            let body = run.snapshot_body(now_ms, elapsed);
            &&& says(body, "completed"@, FieldView::Count(run.completed_count as u64))
            &&& says(body, "failed"@, FieldView::Count(run.failed_count as u64))
            &&& says(
                body,
                "skipped"@,
                FieldView::Count((run.ended_count - run.completed_count - run.failed_count) as u64),
            )
            &&& says(body, "bytes"@, FieldView::Signed(run.completed_bytes))
            &&& says(body, "elapsed_seconds"@, FieldView::Number(run_time(elapsed)))
            &&& run_time(elapsed).bits >= elapsed.bits && run_time(elapsed).bits >= THOUSANDTH
            &&& run_time(elapsed).bits == elapsed.bits || run_time(elapsed).bits == THOUSANDTH
        }),
{
    let body = run.snapshot_body(now_ms, elapsed);
    assert(body[1].0 == "completed"@ && body[2].0 == "failed"@ && body[5].0 == "bytes"@ && body[7].0
        == "elapsed_seconds"@);
    assert(body[3] == (
        "skipped"@,
        FieldView::Count((run.ended_count - run.completed_count - run.failed_count) as u64),
    ));
}

/// The average speed of a run is the speed that multiplied with the time gives the bytes, but for half of
/// the last place; there is none without bytes.
pub proof fn the_average_speed_gives_the_bytes(bytes: int, time: Binary64)
    requires
        bytes < 2 * BINADE,
        0 < time.bits < INFINITY,
    ensures
        bytes <= 0 ==> average_text(bytes, time) == "---"@,
        bytes > 0 ==> exists|x: Binary64| #[trigger]
            speed_text(x) == average_text(bytes, time) && x.bits <= INFINITY && (x.bits < INFINITY ==> 2
                * BINADE * gap((units(x@) * units(time@)) as int, bytes * one() * one()) <= units(x@)
                * units(time@) + BINADE * units(time@)),
{
    if bytes > 0 {
        let n = bytes as nat;
        small_integers_are_exact(n);
        units_are_ordered(0, time@);
        let q = quotient(rounded(n), time@);
        nearest_exists(n * one() * one(), units(time@));
        if q < INFINITY {
            the_nearest_is_near(n * one() * one(), units(time@));
        }
        let x = Binary64 { bits: q as u64 };
        assert(x@ == q);
        assert(speed_text(x) == average_text(bytes, time));
    }
}

/// The time to go that a summary tells is the one of the bytes, the tasks and the speed that it tells.
pub proof fn a_summary_tells_the_time_to_go(
    plan: PlanView,
    completed: u32,
    failed: u32,
    skipped: int,
    bytes: i64,
    time: Binary64,
    rate: nat,
)
    ensures
        ({
            let body = summary_body(plan, completed, failed, skipped, bytes, time, rate);
            let eta = remaining_seconds(bytes as int, completed as nat, plan.tasks.len(), rate);
            &&& eta is None ==> says(body, "eta_seconds"@, FieldView::Null)
            &&& eta matches Some(seconds) ==> says(
                body,
                "eta_seconds"@,
                FieldView::Number(Binary64 { bits: seconds as u64 }),
            )
        }),
{
    let body = summary_body(plan, completed, failed, skipped, bytes, time, rate);
    assert(body[9].0 == "eta_seconds"@);
}

/// A retry delay is the backoff and a random part of the jitter on top: the backoff itself without jitter
/// and for a random number of zero, never less for a greater one, and in between that part of the jitter
/// more, but for one part in two to the power of 52.
pub proof fn a_retry_delay_is_the_backoff_and_a_random_part(
    plan: PlanView,
    attempt: nat,
    random: Binary64,
    greater: Binary64,
)
    requires
        attempt >= 1,
        plan.usable_delays(),
        random.bits <= greater.bits <= ONE,
    ensures
        retry_delay(plan, attempt, random) <= retry_delay(plan, attempt, greater),
        ({
            let least = backoff_units(
                attempt,
                plan.retry_base_delay_seconds@,
                plan.retry_max_delay_seconds@,
            );
            let u = units(retry_delay(plan, attempt, random));
            &&& plan.retry_jitter_seconds.bits == 0 ==> retry_delay(plan, attempt, random)
                == crate::binary64::nearest(least, 1)
            &&& retry_delay(plan, attempt, random) < INFINITY && plan.retry_jitter_seconds.bits > 0
                ==> BINADE * gap(
                (u * one()) as int,
                (least * one() + units(random@) * units(plan.retry_jitter_seconds@)) as int,
            ) <= u * one() + BINADE * one()
        }),
{
    let least = backoff_units(attempt, plan.retry_base_delay_seconds@, plan.retry_max_delay_seconds@);
    let jitter = plan.retry_jitter_seconds@;
    if jitter > 0 {
        let u = units(jitter);
        vstd::arithmetic::power2::lemma_pow2_pos(1074);
        units_are_ordered(random@, greater@);
        assert(units(random@) * u <= units(greater@) * u) by (nonlinear_arith)
            requires
                units(random@) <= units(greater@),
        ;
        crate::binary64::nearest_keeps_order(units(random@) * u, units(greater@) * u, one());
        let a = crate::binary64::product(random@, jitter);
        let b = crate::binary64::product(greater@, jitter);
        units_are_ordered(a, b);
        crate::binary64::nearest_keeps_order(least + units(a), least + units(b), 1);
        if retry_delay(plan, attempt, random) < INFINITY {
            crate::pacing::lemma_random_part_on_top(least, jitter, random@);
        }
    }
}

/// What an attempt fetched is told to its task with its length; what failed is told as worth another
/// attempt, or as called off, exactly when it is.
pub proof fn a_task_learns_how_its_attempt_ended(action: AttemptAction, length: u64, failure: AttemptFailure)
    ensures
        attempt_result(AttemptAction::Succeed(length)) == Some(TaskEvent::Fetched(length)),
        !(action is Succeed) && !(action is Fail) ==> attempt_result(action) is None,
        attempt_result(AttemptAction::Fail(failure)) matches Some(
            TaskEvent::AttemptFailed { retryable, cancelled },
        ) && (cancelled <==> failure is Cancelled || failure is CancelledInTransfer) && (retryable <==> {
            ||| failure is Request
            ||| failure is Stream
            ||| failure is Empty
            ||| failure is Incomplete
            ||| failure is Status && (failure->Status_0 == 408 || failure->Status_0 == 429
                || failure->Status_0 / 100 == 5)
        }),
{
}

/// The end of a task counts once and as what it was: a fetched file as completed, a failure as failed, a
/// file that was there as neither; the bytes of a file are added to those before; and what was called off
/// counts as nothing.
pub proof fn the_end_of_a_task_counts_once(
    before: DownloadRunner,
    after: DownloadRunner,
    index: int,
    outcome: TaskOutcome,
    length: u64,
)
    requires
        settled(before, after, index, outcome),
        before.completed_count < u32::MAX,
        before.failed_count < u32::MAX,
        before.ended_count < before.finished@.len(),
        before.finished@.len() <= usize::MAX,
        0 <= index < before.finished@.len(),
        0 <= before.completed_bytes,
        before.completed_bytes + length <= i64::MAX,
    ensures
        outcome == TaskOutcome::Completed(length) ==> {
            &&& after.completed_count == before.completed_count + 1
            &&& after.failed_count == before.failed_count
            &&& after.completed_bytes == before.completed_bytes + length
        },
        outcome == TaskOutcome::Skipped(length) ==> {
            &&& after.completed_count == before.completed_count
            &&& after.failed_count == before.failed_count
            &&& after.completed_bytes == before.completed_bytes + length
        },
        outcome is Failed ==> {
            &&& after.completed_count == before.completed_count
            &&& after.failed_count == before.failed_count + 1
            &&& after.completed_bytes == before.completed_bytes
        },
        outcome is Abandoned ==> after.completed_count == before.completed_count && after.failed_count
            == before.failed_count && after.completed_bytes == before.completed_bytes && after.ended_count
            == before.ended_count && after.finished@ == before.finished@,
        !(outcome is Abandoned) ==> after.ended_count == before.ended_count + 1 && after.finished@[index],
        forall|i: int|
            0 <= i < before.finished@.len() && i != index ==> #[trigger] after.finished@[i]
                == before.finished@[i],
        after.plan == before.plan && after.speed == before.speed,
        after.plan_headers == before.plan_headers && after.default_user_agent
            == before.default_user_agent,
{
}

/// One more end adds one to what it counts as, and to nothing else.
pub proof fn a_tally_adds_one(outcomes: Seq<TaskOutcome>, outcome: TaskOutcome)
    ensures
        tally(Seq::<TaskOutcome>::empty()) == (0nat, 0nat),
        outcome is Completed ==> tally(outcomes.push(outcome)) == (
            tally(outcomes).0 + 1,
            tally(outcomes).1,
        ),
        outcome is Failed ==> tally(outcomes.push(outcome)) == (tally(outcomes).0, tally(outcomes).1 + 1),
        outcome is Skipped || outcome is Abandoned ==> tally(outcomes.push(outcome)) == tally(outcomes),
        finishes(outcome) <==> !(outcome is Abandoned),
{
    assert(outcomes.push(outcome).drop_last() =~= outcomes);
}

/// The words for a task that was given up are those of its last attempt, or end with those of the move.
pub proof fn a_given_up_task_tells_why(detail: Seq<char>)
    ensures
        task_failure_text(TaskFailure::Attempt, detail) == detail,
        task_failure_text(TaskFailure::Promotion, detail) == "Unable to promote temp file: "@ + detail,
        task_failure_text(TaskFailure::Unnamed, detail) == "Task is missing url or path"@,
        task_failure_text(TaskFailure::NoAttempts, detail) == Seq::<char>::empty(),
{
    reveal_strlit("");
    assert(""@ =~= Seq::<char>::empty());
}

/// The events about the program itself tell what they are about.
pub proof fn the_other_events_tell_their_matter(
    version: String,
    warning: Warning,
    message: String,
    plan_path: String,
)
    ensures
        says(Event::Version(version).body(), "name"@, FieldView::Text("Velora"@)),
        says(Event::Version(version).body(), "version"@, FieldView::Text(version@)),
        says(Event::Warning(warning).body(), "scope"@, FieldView::Text(warning.scope@)),
        says(Event::Warning(warning).body(), "key"@, FieldView::Text(warning.key@)),
        says(Event::Warning(warning).body(), "value"@, FieldView::Text(warning.value@)),
        says(Event::Warning(warning).body(), "message"@, FieldView::Text(warning.message@)),
        says(Event::PlanError { message, plan_path }.body(), "message"@, FieldView::Text(message@)),
        says(Event::PlanError { message, plan_path }.body(), "plan_path"@, FieldView::Text(plan_path@)),
        says(
            Event::ClientError(message).body(),
            "message"@,
            FieldView::Text("Failed to build HTTP client: "@ + message@),
        ),
        says(Event::Cancelled.body(), "message"@, FieldView::Text("Cancellation requested"@)),
{
    let v = Event::Version(version).body();
    assert(v[0].0 == "name"@ && v[1].0 == "version"@);
    let w = Event::Warning(warning).body();
    assert(w[0].0 == "scope"@ && w[1].0 == "key"@ && w[2].0 == "value"@ && w[3].0 == "message"@);
    let p = Event::PlanError { message, plan_path }.body();
    assert(p[0].0 == "message"@ && p[1].0 == "plan_path"@);
    assert(Event::ClientError(message).body()[0].0 == "message"@);
    assert(Event::Cancelled.body()[0].0 == "message"@);
}

/// The bytes of files add up, and nothing else changes them.
pub proof fn bytes_add_up(bytes: i64, length: u64, failure: TaskFailure)
    requires
        0 <= bytes,
        bytes + length <= i64::MAX,
    ensures
        bytes_after(bytes, TaskOutcome::Completed(length)) == bytes + length,
        bytes_after(bytes, TaskOutcome::Skipped(length)) == bytes + length,
        bytes_after(bytes, TaskOutcome::Failed(failure)) == bytes,
        bytes_after(bytes, TaskOutcome::Abandoned) == bytes,
{
}

/// Of a number of tasks those are left over that were neither completed nor failed, and none where no fewer
/// than all of them were.
pub proof fn what_is_left_over_makes_up_the_rest(completed: nat, failed: nat, total: nat)
    ensures
        completed + failed <= total ==> left_over(completed as int, failed as int, total as int)
            + completed + failed == total,
        completed + failed >= total ==> left_over(completed as int, failed as int, total as int) == 0,
{
}

} // verus!
