use velora::attempt::{Attempt, AttemptAction, AttemptEvent, AttemptFailure};
use velora::models::{DownloadTask, HeaderTable};
use velora::runner::outcome_of_attempt;
use velora::schedule::Schedule;
use velora::task::{choose_promotion, end_with_zero, is_named, part_path, Promotion, TaskAction, TaskEvent, TaskFailure,
    TaskOutcome, TaskRun};

fn response(status: u16, content_length: Option<u64>) -> AttemptEvent {
    AttemptEvent::Response { status, content_length }
}

/// Plays an attempt that nobody calls off, each event with the action that it leads to.
fn play(task_has_range: bool, script: &[(AttemptEvent, AttemptAction)]) {
    let (mut attempt, first) = Attempt::begin(task_has_range, false);
    assert_eq!(first, AttemptAction::MeasurePart);
    for (event, action) in script {
        assert!(attempt.is_expected(*event), "{:?}", event);
        assert_eq!(attempt.step(*event, false), *action);
    }
    if let Some((_, AttemptAction::Succeed(_) | AttemptAction::Fail(_))) = script.last() {
        assert!(!attempt.is_expected(AttemptEvent::BodyEnded));
    }
}

#[test]
fn a_fresh_file_is_fetched_whole() {
    play(
        false,
        &[
            (AttemptEvent::PartLength(0), AttemptAction::Send { resume_from: 0 }),
            (response(200, Some(10)), AttemptAction::CreatePart),
            (AttemptEvent::Opened, AttemptAction::ReadChunk),
            (AttemptEvent::Chunk(6), AttemptAction::WriteChunk),
            (AttemptEvent::Written, AttemptAction::ReadChunk),
            (AttemptEvent::Chunk(4), AttemptAction::WriteChunk),
            (AttemptEvent::Written, AttemptAction::ReadChunk),
            (AttemptEvent::BodyEnded, AttemptAction::Flush),
            (AttemptEvent::Flushed, AttemptAction::Succeed(10)),
        ],
    );
}

#[test]
fn a_part_is_continued_where_the_server_agrees() {
    play(
        false,
        &[
            (AttemptEvent::PartLength(7), AttemptAction::Send { resume_from: 7 }),
            (response(206, Some(3)), AttemptAction::OpenAppend),
            (AttemptEvent::Opened, AttemptAction::ReadChunk),
            (AttemptEvent::Chunk(3), AttemptAction::WriteChunk),
            (AttemptEvent::Written, AttemptAction::ReadChunk),
            (AttemptEvent::BodyEnded, AttemptAction::Flush),
            (AttemptEvent::Flushed, AttemptAction::Succeed(10)),
        ],
    );
}

#[test]
fn a_server_that_ignores_the_range_starts_the_file_again() {
    play(
        false,
        &[
            (AttemptEvent::PartLength(7), AttemptAction::Send { resume_from: 7 }),
            (response(200, Some(10)), AttemptAction::RemovePart),
            (AttemptEvent::PartRemoved, AttemptAction::CreatePart),
            (AttemptEvent::Opened, AttemptAction::ReadChunk),
            (AttemptEvent::Chunk(10), AttemptAction::WriteChunk),
            (AttemptEvent::Written, AttemptAction::ReadChunk),
            (AttemptEvent::BodyEnded, AttemptAction::Flush),
            (AttemptEvent::Flushed, AttemptAction::Succeed(10)),
        ],
    );
}

#[test]
fn another_success_overwrites_the_part() {
    play(
        false,
        &[
            (AttemptEvent::PartLength(7), AttemptAction::Send { resume_from: 7 }),
            (response(203, None), AttemptAction::CreatePart),
            (AttemptEvent::Opened, AttemptAction::ReadChunk),
            (AttemptEvent::Chunk(2), AttemptAction::WriteChunk),
            (AttemptEvent::Written, AttemptAction::ReadChunk),
            (AttemptEvent::BodyEnded, AttemptAction::Flush),
            (AttemptEvent::Flushed, AttemptAction::Succeed(2)),
        ],
    );
}

#[test]
fn a_range_of_the_task_s_own_removes_the_part() {
    play(
        true,
        &[
            (AttemptEvent::PartLength(7), AttemptAction::RemovePart),
            (AttemptEvent::PartRemoved, AttemptAction::Send { resume_from: 0 }),
            (response(206, Some(5)), AttemptAction::CreatePart),
            (AttemptEvent::OpenFailed, AttemptAction::Fail(AttemptFailure::Create)),
        ],
    );
    play(true, &[(AttemptEvent::PartLength(0), AttemptAction::Send { resume_from: 0 })]);
}

#[test]
fn a_range_that_is_not_there_fails() {
    play(
        false,
        &[
            (AttemptEvent::PartLength(7), AttemptAction::Send { resume_from: 7 }),
            (response(416, None), AttemptAction::Fail(AttemptFailure::RangeNotSatisfiable)),
        ],
    );
    play(
        false,
        &[
            (AttemptEvent::PartLength(0), AttemptAction::Send { resume_from: 0 }),
            (response(416, None), AttemptAction::Fail(AttemptFailure::RangeNotSatisfiable)),
        ],
    );
}

#[test]
fn refusals_fail_with_their_status() {
    for status in [199u16, 304, 404, 429, 500] {
        play(
            false,
            &[
                (AttemptEvent::PartLength(0), AttemptAction::Send { resume_from: 0 }),
                (response(status, Some(1)), AttemptAction::Fail(AttemptFailure::Status(status))),
            ],
        );
    }
}

#[test]
fn a_request_without_a_response_fails() {
    play(
        false,
        &[
            (AttemptEvent::PartLength(0), AttemptAction::Send { resume_from: 0 }),
            (AttemptEvent::SendFailed, AttemptAction::Fail(AttemptFailure::Request)),
        ],
    );
}

#[test]
fn a_part_that_cannot_be_opened_fails() {
    play(
        false,
        &[
            (AttemptEvent::PartLength(1), AttemptAction::Send { resume_from: 1 }),
            (response(206, None), AttemptAction::OpenAppend),
            (AttemptEvent::OpenFailed, AttemptAction::Fail(AttemptFailure::OpenAppend)),
        ],
    );
}

/// An attempt that reads the body of a response that announced a length.
fn reading(content_length: Option<u64>) -> Attempt {
    let (mut attempt, _) = Attempt::begin(false, false);
    attempt.step(AttemptEvent::PartLength(0), false);
    attempt.step(response(200, content_length), false);
    assert_eq!(attempt.step(AttemptEvent::Opened, false), AttemptAction::ReadChunk);
    attempt
}

#[test]
fn a_body_that_breaks_off_is_discarded() {
    let mut attempt = reading(Some(5));
    assert_eq!(attempt.step(AttemptEvent::ChunkFailed, false), AttemptAction::RemovePart);
    assert_eq!(attempt.step(AttemptEvent::PartRemoved, false), AttemptAction::Fail(AttemptFailure::Stream));
}

#[test]
fn an_empty_file_is_discarded() {
    let mut attempt = reading(Some(0));
    assert_eq!(attempt.step(AttemptEvent::BodyEnded, false), AttemptAction::Flush);
    assert_eq!(attempt.step(AttemptEvent::Flushed, false), AttemptAction::RemovePart);
    assert_eq!(attempt.step(AttemptEvent::PartRemoved, false), AttemptAction::Fail(AttemptFailure::Empty));
}

#[test]
fn a_file_of_the_wrong_length_is_discarded() {
    for (announced, came) in [(5u64, 4u64), (5, 6)] {
        let mut attempt = reading(Some(announced));
        attempt.step(AttemptEvent::Chunk(came), false);
        attempt.step(AttemptEvent::Written, false);
        attempt.step(AttemptEvent::BodyEnded, false);
        assert_eq!(attempt.step(AttemptEvent::Flushed, false), AttemptAction::RemovePart);
        assert_eq!(
            attempt.step(AttemptEvent::PartRemoved, false),
            AttemptAction::Fail(AttemptFailure::Incomplete { got: came, expected: announced as u128 })
        );
    }
}

#[test]
fn a_length_beyond_every_file_is_only_compared() {
    let (mut attempt, _) = Attempt::begin(false, false);
    attempt.step(AttemptEvent::PartLength(2), false);
    attempt.step(response(206, Some(u64::MAX)), false);
    attempt.step(AttemptEvent::Opened, false);
    attempt.step(AttemptEvent::BodyEnded, false);
    attempt.step(AttemptEvent::Flushed, false);
    assert_eq!(
        attempt.step(AttemptEvent::PartRemoved, false),
        AttemptAction::Fail(AttemptFailure::Incomplete { got: 2, expected: u64::MAX as u128 + 2 })
    );
}

#[test]
fn writing_and_flushing_may_fail() {
    let mut attempt = reading(None);
    attempt.step(AttemptEvent::Chunk(1), false);
    assert_eq!(attempt.step(AttemptEvent::WriteFailed, false), AttemptAction::Fail(AttemptFailure::Write));
    let mut attempt = reading(None);
    attempt.step(AttemptEvent::BodyEnded, false);
    assert_eq!(attempt.step(AttemptEvent::FlushFailed, false), AttemptAction::Fail(AttemptFailure::Flush));
}

#[test]
fn an_attempt_is_called_off_before_and_during_the_transfer() {
    assert_eq!(Attempt::begin(false, true).1, AttemptAction::Fail(AttemptFailure::Cancelled));
    let cancelled = AttemptAction::Fail(AttemptFailure::CancelledInTransfer);
    assert_eq!(reading(None).step(AttemptEvent::Chunk(1), true), cancelled);
    assert_eq!(reading(None).step(AttemptEvent::ChunkFailed, true), cancelled);
    assert_eq!(reading(None).step(AttemptEvent::BodyEnded, true), AttemptAction::Flush);
}

#[test]
fn only_answers_are_expected() {
    let attempt = reading(None);
    assert!(attempt.is_expected(AttemptEvent::Chunk(1)));
    assert!(!attempt.is_expected(AttemptEvent::Written));
    assert!(!attempt.is_expected(response(200, None)));
    let mut attempt = attempt;
    attempt.step(AttemptEvent::Chunk(u64::MAX), false);
    assert!(attempt.is_expected(AttemptEvent::Written));
    attempt.step(AttemptEvent::Written, false);
    attempt.step(AttemptEvent::Chunk(1), false);
    assert!(!attempt.is_expected(AttemptEvent::Written));
    assert!(attempt.is_expected(AttemptEvent::WriteFailed));
}

#[test]
fn the_end_of_an_attempt_is_told_to_its_task() {
    assert_eq!(outcome_of_attempt(AttemptAction::Flush), None);
    assert_eq!(outcome_of_attempt(AttemptAction::Succeed(9)), Some(TaskEvent::Fetched(9)));
    let told = |failure: AttemptFailure| match outcome_of_attempt(AttemptAction::Fail(failure)) {
        Some(TaskEvent::AttemptFailed { retryable, cancelled }) => (retryable, cancelled),
        _ => panic!("no failure"),
    };
    assert_eq!(told(AttemptFailure::Request), (true, false));
    assert_eq!(told(AttemptFailure::Stream), (true, false));
    assert_eq!(told(AttemptFailure::Empty), (true, false));
    assert_eq!(told(AttemptFailure::Incomplete { got: 1, expected: 2 }), (true, false));
    assert_eq!(told(AttemptFailure::Status(500)), (true, false));
    assert_eq!(told(AttemptFailure::Status(404)), (false, false));
    assert_eq!(told(AttemptFailure::RangeNotSatisfiable), (false, false));
    assert_eq!(told(AttemptFailure::Write), (false, false));
    assert_eq!(told(AttemptFailure::Cancelled), (false, true));
    assert_eq!(told(AttemptFailure::CancelledInTransfer), (false, true));
}

const PASSING: TaskEvent = TaskEvent::AttemptFailed { retryable: true, cancelled: false };
const LASTING: TaskEvent = TaskEvent::AttemptFailed { retryable: false, cancelled: false };
const CALLED_OFF: TaskEvent = TaskEvent::AttemptFailed { retryable: false, cancelled: true };

/// Plays a task, each event with whether the run was called off and with the action that it leads to.
fn play_task(retry_count: u32, script: &[(TaskEvent, bool, TaskAction)]) {
    let (mut task, first) = TaskRun::begin(retry_count, true, false);
    assert_eq!(first, TaskAction::MeasureFinal);
    for (event, cancelled, action) in script {
        assert!(task.is_expected(*event), "{:?}", event);
        assert_eq!(task.step(*event, *cancelled), *action);
    }
    if let Some((_, _, TaskAction::Finish(_))) = script.last() {
        assert!(!task.is_expected(TaskEvent::Done));
    }
}

/// The way to the first attempt of a task whose file is not there.
const WAY: [(TaskEvent, bool, TaskAction); 4] = [
    (TaskEvent::FinalLength(None), false, TaskAction::CreateParent),
    (TaskEvent::Done, false, TaskAction::Pause),
    (TaskEvent::Done, false, TaskAction::TellStart),
    (TaskEvent::Done, false, TaskAction::Attempt(1)),
];

fn on_the_way(rest: &[(TaskEvent, bool, TaskAction)]) -> Vec<(TaskEvent, bool, TaskAction)> {
    let mut script = WAY.to_vec();
    script.extend_from_slice(rest);
    script
}

#[test]
fn a_new_file_is_fetched_and_moved_to_its_place() {
    play_task(
        3,
        &on_the_way(&[
            (TaskEvent::Fetched(12), false, TaskAction::Promote),
            (TaskEvent::Promoted, false, TaskAction::Finish(TaskOutcome::Completed(12))),
        ]),
    );
}

#[test]
fn a_file_that_cannot_be_moved_fails() {
    play_task(
        3,
        &on_the_way(&[
            (TaskEvent::Fetched(12), false, TaskAction::Promote),
            (
                TaskEvent::PromotionFailed,
                false,
                TaskAction::Finish(TaskOutcome::Failed(TaskFailure::Promotion)),
            ),
        ]),
    );
}

#[test]
fn passing_failures_are_retried_as_often_as_allowed() {
    play_task(
        3,
        &on_the_way(&[
            (PASSING, false, TaskAction::WaitToRetry(1)),
            (TaskEvent::Done, false, TaskAction::Attempt(2)),
            (PASSING, false, TaskAction::WaitToRetry(2)),
            (TaskEvent::Done, false, TaskAction::Attempt(3)),
            (PASSING, false, TaskAction::Finish(TaskOutcome::Failed(TaskFailure::Attempt))),
        ]),
    );
}

#[test]
fn lasting_failures_are_not_retried() {
    play_task(
        3,
        &on_the_way(&[(LASTING, false, TaskAction::Finish(TaskOutcome::Failed(TaskFailure::Attempt)))]),
    );
}

#[test]
fn a_task_without_attempts_fails() {
    play_task(
        0,
        &[
            (TaskEvent::FinalLength(Some(0)), false, TaskAction::CreateParent),
            (TaskEvent::Done, false, TaskAction::Pause),
            (TaskEvent::Done, false, TaskAction::Finish(TaskOutcome::Failed(TaskFailure::NoAttempts))),
        ],
    );
}

fn found(length: u64, there: Option<u64>, action: TaskAction) -> Vec<(TaskEvent, bool, TaskAction)> {
    vec![
        (TaskEvent::FinalLength(Some(length)), false, TaskAction::FindPart),
        (TaskEvent::PartExists(false), false, TaskAction::ProbeRemote),
        (TaskEvent::RemoteLength(there), false, action),
    ]
}

#[test]
fn a_file_that_is_there_is_skipped() {
    let skipped = TaskAction::Finish(TaskOutcome::Skipped(9));
    play_task(3, &found(9, Some(9), skipped));
    play_task(3, &found(9, None, skipped));
}

#[test]
fn a_shorter_file_becomes_the_part() {
    let mut script = found(9, Some(10), TaskAction::TakeAsPart);
    script.push((TaskEvent::Done, false, TaskAction::CreateParent));
    play_task(3, &script);
}

#[test]
fn a_longer_file_is_removed() {
    let mut script = found(9, Some(8), TaskAction::RemoveFinal);
    script.push((TaskEvent::Done, false, TaskAction::CreateParent));
    play_task(3, &script);
}

#[test]
fn a_part_beside_the_file_is_continued() {
    play_task(
        3,
        &[
            (TaskEvent::FinalLength(Some(9)), false, TaskAction::FindPart),
            (TaskEvent::PartExists(true), false, TaskAction::CreateParent),
        ],
    );
}

#[test]
fn a_task_that_is_called_off_removes_its_part() {
    let abandoned = TaskAction::Finish(TaskOutcome::Abandoned);
    play_task(
        3,
        &[
            (TaskEvent::FinalLength(None), true, TaskAction::CreateParent),
            (TaskEvent::Done, true, TaskAction::Pause),
            (TaskEvent::Done, true, TaskAction::RemovePart),
            (TaskEvent::Done, true, abandoned),
        ],
    );
    play_task(
        3,
        &on_the_way(&[
            (CALLED_OFF, true, TaskAction::RemovePart),
            (TaskEvent::Done, true, abandoned),
        ]),
    );
    play_task(
        3,
        &on_the_way(&[
            (PASSING, false, TaskAction::WaitToRetry(1)),
            (TaskEvent::Done, true, TaskAction::RemovePart),
            (TaskEvent::Done, true, abandoned),
        ]),
    );
}

#[test]
fn a_task_called_off_after_its_start_makes_no_attempt() {
    play_task(
        3,
        &[
            (TaskEvent::FinalLength(None), false, TaskAction::CreateParent),
            (TaskEvent::Done, false, TaskAction::Pause),
            (TaskEvent::Done, false, TaskAction::TellStart),
            (TaskEvent::Done, true, TaskAction::RemovePart),
        ],
    );
}

#[test]
fn a_task_needs_an_address_and_a_path() {
    let task = |url: &str, path: &str| DownloadTask {
        task_key: None,
        label: None,
        display_label: None,
        url: url.to_string(),
        path: path.to_string(),
        headers: HeaderTable::new(),
    };
    assert!(is_named(&task("http://h/a", "a.bin")));
    assert!(!is_named(&task("", "a.bin")));
    assert!(!is_named(&task("http://h/a", "")));
    assert!(is_named(&task(" ", " ")));
}

#[test]
fn tasks_are_started_in_order_and_within_the_limit() {
    let mut schedule = Schedule::new(5, 2);
    assert_eq!(schedule.start_next(), Some(0));
    assert_eq!(schedule.start_next(), Some(1));
    assert_eq!(schedule.start_next(), None);
    assert_eq!(schedule.under_way, 2);
    schedule.task_ended();
    assert_eq!(schedule.start_next(), Some(2));
    assert_eq!(schedule.start_next(), None);
    schedule.task_ended();
    schedule.task_ended();
    assert_eq!(schedule.start_next(), Some(3));
    assert_eq!(schedule.start_next(), Some(4));
    schedule.task_ended();
    assert_eq!(schedule.start_next(), None);
    schedule.task_ended();
    assert_eq!(schedule.start_next(), None);
    assert_eq!((schedule.next, schedule.under_way), (5, 0));
}

#[test]
fn a_limit_of_none_is_one() {
    let mut schedule = Schedule::new(2, 0);
    assert_eq!(schedule.start_next(), Some(0));
    assert_eq!(schedule.start_next(), None);
    schedule.task_ended();
    assert_eq!(schedule.start_next(), Some(1));
    assert_eq!(Schedule::new(0, 4).start_next(), None);
}

#[test]
fn some_tasks_end_before_they_begin() {
    assert_eq!(TaskRun::begin(3, true, true).1, TaskAction::Finish(TaskOutcome::Abandoned));
    assert_eq!(TaskRun::begin(3, false, true).1, TaskAction::Finish(TaskOutcome::Abandoned));
    assert_eq!(
        TaskRun::begin(3, false, false).1,
        TaskAction::Finish(TaskOutcome::Failed(TaskFailure::Unnamed))
    );
}

#[test]
fn a_part_lies_beside_its_file() {
    assert_eq!(part_path("dir/a.vtt"), "dir/a.vtt.part");
    assert_eq!(part_path(""), ".part");
}

#[test]
fn a_file_in_the_way_is_replaced_where_renaming_does_not() {
    assert_eq!(choose_promotion(true, true), Promotion::Rename);
    assert_eq!(choose_promotion(true, false), Promotion::Rename);
    assert_eq!(choose_promotion(false, false), Promotion::Rename);
    assert_eq!(choose_promotion(false, true), Promotion::Replace);
}

#[test]
fn wide_paths_end_with_zero() {
    assert_eq!(end_with_zero(vec![67, 58]), vec![67, 58, 0]);
    assert_eq!(end_with_zero(vec![]), vec![0]);
}
