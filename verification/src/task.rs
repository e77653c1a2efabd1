//! One task from beginning to end: what is on disk already, the attempts, and the outcome.

use vstd::prelude::*;

use crate::models::DownloadTask;

verus! {

/// Why a task was given up.
#[derive(Clone, Copy, Debug, PartialEq, Eq, Structural)]
pub enum TaskFailure {
    /// It names no address or no path.
    Unnamed,
    /// It may not be attempted at all.
    NoAttempts,
    /// Its last attempt failed.
    Attempt,
    /// The file was fetched but could not be moved to its place.
    Promotion,
}

/// How a task ends.
#[derive(Clone, Copy, Debug, PartialEq, Eq, Structural)]
pub enum TaskOutcome {
    /// The run was called off.
    Abandoned,
    /// The file was there already, with this length.
    Skipped(u64),
    /// The file was fetched, with this length.
    Completed(u64),
    Failed(TaskFailure),
}

/// What the outside reports to a task.
#[derive(Clone, Copy, Debug, PartialEq, Eq, Structural)]
pub enum TaskEvent {
    /// The length of the file in its place, if there is one.
    FinalLength(Option<u64>),
    /// Whether there is a part.
    PartExists(bool),
    /// The length of the file on the server, if it could be learnt.
    RemoteLength(Option<u64>),
    /// What was asked for has been done, or could not be.
    Done,
    /// The attempt fetched a file of this length.
    Fetched(u64),
    AttemptFailed { retryable: bool, cancelled: bool },
    Promoted,
    PromotionFailed,
}

/// What a task asks the outside to do next.
#[derive(Clone, Copy, Debug, PartialEq, Eq, Structural)]
pub enum TaskAction {
    /// To measure the file in its place.
    MeasureFinal,
    /// To look for a part.
    FindPart,
    /// To ask the server for the length of the file.
    ProbeRemote,
    /// To make the file in its place the part.
    TakeAsPart,
    RemoveFinal,
    CreateParent,
    /// To wait before the first attempt, as the plan asks.
    Pause,
    /// To tell that the download begins.
    TellStart,
    /// To make the attempt of this number.
    Attempt(u32),
    /// To tell of the failed attempt of this number and wait before the next.
    WaitToRetry(u32),
    RemovePart,
    /// To move the part to its place.
    Promote,
    /// Nothing more.
    Finish(TaskOutcome),
}

/// Where a task stands.
#[derive(Clone, Copy, Debug, PartialEq, Eq, Structural)]
pub enum TaskPhase {
    MeasuringFinal,
    /// There is a file of this length in its place.
    FindingPart(u64),
    ProbingRemote(u64),
    TakingAsPart,
    RemovingFinal,
    CreatingParent,
    Pausing,
    TellingStart,
    /// Attempts begin with one.
    Attempting(u32),
    Waiting(u32),
    Promoting(u64),
    RemovingPart,
    Ended,
}

/// One task from beginning to end.
#[derive(Clone, Copy, Debug, PartialEq, Eq, Structural)]
pub struct TaskRun {
    pub phase: TaskPhase,
    /// How many attempts it gets.
    pub retry_count: u32,
}

impl TaskRun {
    /// The task in another phase.
    pub open spec fn to(self, phase: TaskPhase) -> TaskRun {
        TaskRun { phase, ..self }
    }

    /// The end of the task.
    pub open spec fn ending(self, outcome: TaskOutcome) -> (TaskRun, TaskAction) {
        (self.to(TaskPhase::Ended), TaskAction::Finish(outcome))
    }

    /// How a task begins.
    pub open spec fn begun(retry_count: u32, named: bool, cancelled: bool) -> (TaskRun, TaskAction) {
        let task = TaskRun { phase: TaskPhase::MeasuringFinal, retry_count };
        if cancelled {
            task.ending(TaskOutcome::Abandoned)
        } else if !named {
            task.ending(TaskOutcome::Failed(TaskFailure::Unnamed))
        } else {
            (task, TaskAction::MeasureFinal)
        }
    }

    /// Whether the number of the attempt that a task stands at is one that it gets.
    pub open spec fn well_formed(self) -> bool {
        match self.phase {
            TaskPhase::Attempting(n) => 1 <= n <= self.retry_count,
            TaskPhase::Waiting(n) => 1 <= n < self.retry_count,
            _ => true,
        }
    }

    /// Whether an event answers the action that was asked for last.
    pub open spec fn expects(self, event: TaskEvent) -> bool {
        match self.phase {
            TaskPhase::MeasuringFinal => event is FinalLength,
            TaskPhase::FindingPart(_) => event is PartExists,
            TaskPhase::ProbingRemote(_) => event is RemoteLength,
            TaskPhase::TakingAsPart => event is Done,
            TaskPhase::RemovingFinal => event is Done,
            TaskPhase::CreatingParent => event is Done,
            TaskPhase::Pausing => event is Done,
            TaskPhase::TellingStart => event is Done,
            TaskPhase::Attempting(_) => event is Fetched || event is AttemptFailed,
            TaskPhase::Waiting(_) => event is Done,
            TaskPhase::Promoting(_) => event is Promoted || event is PromotionFailed,
            TaskPhase::RemovingPart => event is Done,
            TaskPhase::Ended => false,
        }
    }

    /// The way to the first attempt.
    pub open spec fn preparing(self) -> (TaskRun, TaskAction) {
        (self.to(TaskPhase::CreatingParent), TaskAction::CreateParent)
    }

    /// The way out for a run that is called off.
    pub open spec fn clearing(self) -> (TaskRun, TaskAction) {
        (self.to(TaskPhase::RemovingPart), TaskAction::RemovePart)
    }

    /// The beginning of the download, unless the run is called off or there are no attempts.
    pub open spec fn starting(self, cancelled: bool) -> (TaskRun, TaskAction) {
        if self.retry_count == 0 {
            self.ending(TaskOutcome::Failed(TaskFailure::NoAttempts))
        } else if cancelled {
            self.clearing()
        } else {
            (self.to(TaskPhase::TellingStart), TaskAction::TellStart)
        }
    }

    /// The attempt of a number, unless the run is called off or there are no more.
    pub open spec fn attempting(self, n: int, cancelled: bool) -> (TaskRun, TaskAction) {
        if n > self.retry_count {
            self.ending(TaskOutcome::Failed(TaskFailure::NoAttempts))
        } else if cancelled {
            self.clearing()
        } else {
            (self.to(TaskPhase::Attempting(n as u32)), TaskAction::Attempt(n as u32))
        }
    }

    /// What becomes of a file of length `here` in its place when that on the server has length
    /// `there`: an equal one is kept, a shorter one is a part of it, a longer one is no good, and
    /// one that cannot be compared is kept.
    pub open spec fn compared(self, here: u64, there: Option<u64>) -> (TaskRun, TaskAction) {
        match there {
            Some(n) => if n == here {
                self.ending(TaskOutcome::Skipped(here))
            } else if n > here {
                (self.to(TaskPhase::TakingAsPart), TaskAction::TakeAsPart)
            } else {
                (self.to(TaskPhase::RemovingFinal), TaskAction::RemoveFinal)
            },
            None => self.ending(TaskOutcome::Skipped(here)),
        }
    }

    /// Where an event leads to, and what is to be done next.
    pub open spec fn next(self, event: TaskEvent, cancelled: bool) -> (TaskRun, TaskAction) {
        match self.phase {
            TaskPhase::MeasuringFinal => match event->FinalLength_0 {
                Some(n) => if n > 0 {
                    (self.to(TaskPhase::FindingPart(n)), TaskAction::FindPart)
                } else {
                    self.preparing()
                },
                None => self.preparing(),
            },
            TaskPhase::FindingPart(n) => if event->PartExists_0 {
                self.preparing()
            } else {
                (self.to(TaskPhase::ProbingRemote(n)), TaskAction::ProbeRemote)
            },
            TaskPhase::ProbingRemote(n) => self.compared(n, event->RemoteLength_0),
            TaskPhase::TakingAsPart => self.preparing(),
            TaskPhase::RemovingFinal => self.preparing(),
            TaskPhase::CreatingParent => (self.to(TaskPhase::Pausing), TaskAction::Pause),
            TaskPhase::Pausing => self.starting(cancelled),
            TaskPhase::TellingStart => self.attempting(1, cancelled),
            TaskPhase::Attempting(n) => match event {
                TaskEvent::Fetched(length) => (
                    self.to(TaskPhase::Promoting(length)),
                    TaskAction::Promote,
                ),
                TaskEvent::AttemptFailed { retryable, cancelled: called_off } => if called_off {
                    self.clearing()
                } else if retryable && n < self.retry_count {
                    (self.to(TaskPhase::Waiting(n)), TaskAction::WaitToRetry(n))
                } else {
                    self.ending(TaskOutcome::Failed(TaskFailure::Attempt))
                },
                _ => self.ending(TaskOutcome::Failed(TaskFailure::Attempt)),
            },
            TaskPhase::Waiting(n) => self.attempting(n + 1, cancelled),
            TaskPhase::Promoting(length) => if event is Promoted {
                self.ending(TaskOutcome::Completed(length))
            } else {
                self.ending(TaskOutcome::Failed(TaskFailure::Promotion))
            },
            TaskPhase::RemovingPart => self.ending(TaskOutcome::Abandoned),
            TaskPhase::Ended => self.ending(TaskOutcome::Abandoned),
        }
    }

    /// Begins a task that gets `retry_count` attempts; `named` tells whether it names an address
    /// and a path.
    pub fn begin(retry_count: u32, named: bool, cancelled: bool) -> (r: (TaskRun, TaskAction))
        ensures
            r == TaskRun::begun(retry_count, named, cancelled),
            r.0.well_formed(),
    {
        let mut task: TaskRun = TaskRun { phase: TaskPhase::MeasuringFinal, retry_count };
        if cancelled {
            let action: TaskAction = task.end(TaskOutcome::Abandoned);
            (task, action)
        } else if !named {
            let action: TaskAction = task.end(TaskOutcome::Failed(TaskFailure::Unnamed));
            (task, action)
        } else {
            (task, TaskAction::MeasureFinal)
        }
    }

    /// Tests whether an event answers the action that was asked for last.
    pub fn is_expected(&self, event: TaskEvent) -> (r: bool)
        ensures
            r == self.expects(event),
    {
        match self.phase {
            TaskPhase::MeasuringFinal => matches!(event, TaskEvent::FinalLength(_)),
            TaskPhase::FindingPart(_) => matches!(event, TaskEvent::PartExists(_)),
            TaskPhase::ProbingRemote(_) => matches!(event, TaskEvent::RemoteLength(_)),
            TaskPhase::TakingAsPart => matches!(event, TaskEvent::Done),
            TaskPhase::RemovingFinal => matches!(event, TaskEvent::Done),
            TaskPhase::CreatingParent => matches!(event, TaskEvent::Done),
            TaskPhase::Pausing => matches!(event, TaskEvent::Done),
            TaskPhase::TellingStart => matches!(event, TaskEvent::Done),
            TaskPhase::Attempting(_) => matches!(
                event,
                TaskEvent::Fetched(_) | TaskEvent::AttemptFailed { .. }
            ),
            TaskPhase::Waiting(_) => matches!(event, TaskEvent::Done),
            TaskPhase::Promoting(_) => matches!(
                event,
                TaskEvent::Promoted | TaskEvent::PromotionFailed
            ),
            TaskPhase::RemovingPart => matches!(event, TaskEvent::Done),
            TaskPhase::Ended => false,
        }
    }

    fn end(&mut self, outcome: TaskOutcome) -> (r: TaskAction)
        ensures
            (*final(self), r) == old(self).ending(outcome),
    {
        self.phase = TaskPhase::Ended;
        TaskAction::Finish(outcome)
    }

    fn prepare(&mut self) -> (r: TaskAction)
        ensures
            (*final(self), r) == old(self).preparing(),
    {
        self.phase = TaskPhase::CreatingParent;
        TaskAction::CreateParent
    }

    fn clear(&mut self) -> (r: TaskAction)
        ensures
            (*final(self), r) == old(self).clearing(),
    {
        self.phase = TaskPhase::RemovingPart;
        TaskAction::RemovePart
    }

    /// Moves to the beginning of the download.
    fn start(&mut self, cancelled: bool) -> (r: TaskAction)
        ensures
            (*final(self), r) == old(self).starting(cancelled),
    {
        if self.retry_count == 0 {
            return self.end(TaskOutcome::Failed(TaskFailure::NoAttempts));
        }
        if cancelled {
            return self.clear();
        }
        self.phase = TaskPhase::TellingStart;
        TaskAction::TellStart
    }

    /// Moves to the attempt behind number `before`.
    fn attempt_after(&mut self, before: u32, cancelled: bool) -> (r: TaskAction)
        ensures
            (*final(self), r) == old(self).attempting(before + 1, cancelled),
    {
        if before >= self.retry_count {
            return self.end(TaskOutcome::Failed(TaskFailure::NoAttempts));
        }
        if cancelled {
            return self.clear();
        }
        self.phase = TaskPhase::Attempting(before + 1);
        TaskAction::Attempt(before + 1)
    }

    /// Decides what becomes of a file that is in its place already.
    fn compare(&mut self, here: u64, there: Option<u64>) -> (r: TaskAction)
        ensures
            (*final(self), r) == old(self).compared(here, there),
    {
        match there {
            Some(n) => if n == here {
                self.end(TaskOutcome::Skipped(here))
            } else if n > here {
                self.phase = TaskPhase::TakingAsPart;
                TaskAction::TakeAsPart
            } else {
                self.phase = TaskPhase::RemovingFinal;
                TaskAction::RemoveFinal
            },
            None => self.end(TaskOutcome::Skipped(here)),
        }
    }

    /// Takes an event and tells what is to be done next.
    pub fn step(&mut self, event: TaskEvent, cancelled: bool) -> (r: TaskAction)
        requires
            old(self).well_formed(),
            old(self).expects(event),
        ensures
            (*final(self), r) == old(self).next(event, cancelled),
            final(self).well_formed(),
    {
        match self.phase {
            TaskPhase::MeasuringFinal => match event {
                TaskEvent::FinalLength(Some(n)) => if n > 0 {
                    self.phase = TaskPhase::FindingPart(n);
                    TaskAction::FindPart
                } else {
                    self.prepare()
                },
                _ => self.prepare(),
            },
            TaskPhase::FindingPart(n) => match event {
                TaskEvent::PartExists(false) => {
                    self.phase = TaskPhase::ProbingRemote(n);
                    TaskAction::ProbeRemote
                },
                _ => self.prepare(),
            },
            TaskPhase::ProbingRemote(n) => match event {
                TaskEvent::RemoteLength(there) => self.compare(n, there),
                _ => self.prepare(),
            },
            TaskPhase::TakingAsPart => self.prepare(),
            TaskPhase::RemovingFinal => self.prepare(),
            TaskPhase::CreatingParent => {
                self.phase = TaskPhase::Pausing;
                TaskAction::Pause
            },
            TaskPhase::Pausing => self.start(cancelled),
            TaskPhase::TellingStart => self.attempt_after(0, cancelled),
            TaskPhase::Attempting(n) => match event {
                TaskEvent::Fetched(length) => {
                    self.phase = TaskPhase::Promoting(length);
                    TaskAction::Promote
                },
                TaskEvent::AttemptFailed { retryable, cancelled: called_off } => if called_off {
                    self.clear()
                } else if retryable && n < self.retry_count {
                    self.phase = TaskPhase::Waiting(n);
                    TaskAction::WaitToRetry(n)
                } else {
                    self.end(TaskOutcome::Failed(TaskFailure::Attempt))
                },
                _ => self.end(TaskOutcome::Failed(TaskFailure::Attempt)),
            },
            TaskPhase::Waiting(n) => self.attempt_after(n, cancelled),
            TaskPhase::Promoting(length) => match event {
                TaskEvent::Promoted => self.end(TaskOutcome::Completed(length)),
                _ => self.end(TaskOutcome::Failed(TaskFailure::Promotion)),
            },
            TaskPhase::RemovingPart => self.end(TaskOutcome::Abandoned),
            TaskPhase::Ended => self.end(TaskOutcome::Abandoned),
        }
    }

    /// How many more steps a task can take at most.
    pub open spec fn steps_left(self) -> int {
        match self.phase {
            TaskPhase::MeasuringFinal => 2 * self.retry_count + 10,
            TaskPhase::FindingPart(_) => 2 * self.retry_count + 9,
            TaskPhase::ProbingRemote(_) => 2 * self.retry_count + 8,
            TaskPhase::TakingAsPart => 2 * self.retry_count + 7,
            TaskPhase::RemovingFinal => 2 * self.retry_count + 7,
            TaskPhase::CreatingParent => 2 * self.retry_count + 6,
            TaskPhase::Pausing => 2 * self.retry_count + 5,
            TaskPhase::TellingStart => 2 * self.retry_count + 4,
            TaskPhase::Attempting(n) => 2 * (self.retry_count - n) + 3,
            TaskPhase::Waiting(n) => 2 * (self.retry_count - n) + 2,
            TaskPhase::Promoting(_) => 1,
            TaskPhase::RemovingPart => 1,
            TaskPhase::Ended => 0,
        }
    }
}

/// A task comes to an end: every step leaves fewer steps to take.
pub proof fn every_step_leads_to_the_end(task: TaskRun, event: TaskEvent, cancelled: bool)
    requires
        task.well_formed(),
        task.expects(event),
    ensures
        0 <= task.next(event, cancelled).0.steps_left() < task.steps_left(),
        task.next(event, cancelled).0.well_formed(),
        task.next(event, cancelled).0.phase is Ended <==> task.next(event, cancelled).1 is Finish,
{
}

/// Where a task that names an address and a path stands after events, each with whether the run was
/// called off by then, and what it asked for last.
pub open spec fn played(retry_count: u32, events: Seq<(TaskEvent, bool)>) -> (TaskRun, TaskAction)
    decreases events.len(),
{
    if events.len() == 0 {
        TaskRun::begun(retry_count, true, false)
    } else {
        let last = events.last();
        played(retry_count, events.drop_last()).0.next(last.0, last.1)
    }
}

/// Whether every event answers what the task asked for before it.
pub open spec fn answers(retry_count: u32, events: Seq<(TaskEvent, bool)>) -> bool
    decreases events.len(),
{
    events.len() > 0 ==> {
        &&& answers(retry_count, events.drop_last())
        &&& played(retry_count, events.drop_last()).0.expects(events.last().0)
    }
}

/// How many attempts a task has asked for.
pub open spec fn attempts_made(retry_count: u32, events: Seq<(TaskEvent, bool)>) -> nat
    decreases events.len(),
{
    if events.len() == 0 {
        0
    } else {
        attempts_made(retry_count, events.drop_last()) + if played(retry_count, events).1 is Attempt {
            1nat
        } else {
            0
        }
    }
}

/// How often a task has asked to tell that its download begins.
pub open spec fn starts_told(retry_count: u32, events: Seq<(TaskEvent, bool)>) -> nat
    decreases events.len(),
{
    if events.len() == 0 {
        0
    } else {
        starts_told(retry_count, events.drop_last()) + if played(retry_count, events).1 is TellStart {
            1nat
        } else {
            0
        }
    }
}

/// What holds of a task after any events that answer what it asked for.
spec fn consistent(retry_count: u32, events: Seq<(TaskEvent, bool)>) -> bool {
    let (task, action) = played(retry_count, events);
    let made = attempts_made(retry_count, events);
    let told = starts_told(retry_count, events);
    &&& task.retry_count == retry_count
    &&& task.well_formed()
    &&& made <= retry_count
    &&& told <= 1
    &&& (made > 0 ==> told == 1)
    &&& match task.phase {
        TaskPhase::TellingStart => made == 0 && told == 1,
        TaskPhase::Attempting(n) => made == n && action == TaskAction::Attempt(n),
        TaskPhase::Waiting(n) => made == n,
        TaskPhase::Promoting(_) => made >= 1,
        TaskPhase::RemovingPart => true,
        TaskPhase::Ended => true,
        _ => made == 0 && told == 0,
    }
    &&& (action is TellStart ==> task.phase is TellingStart)
    &&& (action matches TaskAction::Attempt(n) ==> task.phase == TaskPhase::Attempting(n))
}

proof fn lemma_consistent(retry_count: u32, events: Seq<(TaskEvent, bool)>)
    requires
        answers(retry_count, events),
    ensures
        consistent(retry_count, events),
    decreases events.len(),
{
    if events.len() > 0 {
        lemma_consistent(retry_count, events.drop_last());
    }
}

/// A task is attempted no more often than the plan allows, and its attempts are numbered from one.
pub proof fn attempts_are_limited(retry_count: u32, events: Seq<(TaskEvent, bool)>)
    requires
        answers(retry_count, events),
    ensures
        attempts_made(retry_count, events) <= retry_count,
        played(retry_count, events).1 matches TaskAction::Attempt(n) ==> n == attempts_made(
            retry_count,
            events,
        ),
{
    lemma_consistent(retry_count, events);
}

/// The beginning of a download is told once and before its first attempt: no attempt is made without,
/// and no other is told.
pub proof fn a_start_is_told_once_before_the_download(
    retry_count: u32,
    events: Seq<(TaskEvent, bool)>,
)
    requires
        answers(retry_count, events),
    ensures
        starts_told(retry_count, events) <= 1,
        attempts_made(retry_count, events) > 0 ==> starts_told(retry_count, events) == 1,
        played(retry_count, events).1 is TellStart ==> attempts_made(retry_count, events) == 0,
{
    lemma_consistent(retry_count, events);
}

/// A task is given up for a failed attempt only when that attempt was not worth another, or was the
/// last that the plan allows.
pub proof fn giving_up_needs_a_reason(retry_count: u32, events: Seq<(TaskEvent, bool)>)
    requires
        answers(retry_count, events),
        played(retry_count, events).1 == TaskAction::Finish(
            TaskOutcome::Failed(TaskFailure::Attempt),
        ),
    ensures
        events.len() > 0,
        events.last().0 matches TaskEvent::AttemptFailed { retryable, cancelled } && !cancelled && (
        !retryable || attempts_made(retry_count, events) == retry_count),
{
    assert(events.len() > 0);
    lemma_consistent(retry_count, events.drop_last());
}

/// A failure that another attempt may mend is followed by another attempt, as long as the plan allows
/// one and the run is not called off; any other failure ends the task at once.
pub proof fn a_passing_failure_is_retried(task: TaskRun, n: u32, cancelled: bool)
    requires
        task.phase == TaskPhase::Attempting(n),
        task.well_formed(),
    ensures
        n < task.retry_count ==> {
            let failed = TaskEvent::AttemptFailed { retryable: true, cancelled: false };
            let (waiting, action) = task.next(failed, cancelled);
            &&& action == TaskAction::WaitToRetry(n)
            &&& waiting.next(TaskEvent::Done, false).1 == TaskAction::Attempt((n + 1) as u32)
            &&& waiting.next(TaskEvent::Done, true).1 == TaskAction::RemovePart
        },
        task.next(TaskEvent::AttemptFailed { retryable: false, cancelled: false }, cancelled).1
            == TaskAction::Finish(TaskOutcome::Failed(TaskFailure::Attempt)),
{
}

/// A task counts as completed only when an attempt fetched a file of that length and the file was
/// moved to its place.
pub proof fn completion_needs_a_fetched_file(
    retry_count: u32,
    events: Seq<(TaskEvent, bool)>,
    length: u64,
)
    requires
        answers(retry_count, events),
        played(retry_count, events).1 == TaskAction::Finish(TaskOutcome::Completed(length)),
    ensures
        events.len() >= 2,
        events.last().0 is Promoted,
        events[events.len() - 2].0 == TaskEvent::Fetched(length),
        attempts_made(retry_count, events) >= 1,
{
    assert(events.len() > 0);
    let front = events.drop_last();
    lemma_consistent(retry_count, front);
    assert(front.len() > 0);
    assert(front.last() == events[events.len() - 2]);
    assert(answers(retry_count, front));
    assert(answers(retry_count, front.drop_last()));
    lemma_consistent(retry_count, front.drop_last());
}

/// A task counts as skipped only when its file is there already, no part is, the server tells no
/// other length, and no download was begun.
pub proof fn skipping_needs_a_file(
    retry_count: u32,
    events: Seq<(TaskEvent, bool)>,
    length: u64,
)
    requires
        answers(retry_count, events),
        played(retry_count, events).1 == TaskAction::Finish(TaskOutcome::Skipped(length)),
    ensures
        length > 0,
        events.len() == 3,
        events[0].0 == TaskEvent::FinalLength(Some(length)),
        events[1].0 == TaskEvent::PartExists(false),
        events[2].0 == TaskEvent::RemoteLength(Some(length)) || events[2].0
            == TaskEvent::RemoteLength(None),
        attempts_made(retry_count, events) == 0,
        starts_told(retry_count, events) == 0,
{
    reveal_with_fuel(answers, 4);
    assert(events.len() > 0);
    let e2 = events.drop_last();
    assert(played(retry_count, e2).0.phase is ProbingRemote);
    assert(e2.len() > 0);
    let e1 = e2.drop_last();
    assert(played(retry_count, e1).0.phase is FindingPart);
    assert(e1.len() > 0);
    let e0 = e1.drop_last();
    assert(played(retry_count, e0).0.phase is MeasuringFinal);
    lemma_consistent(retry_count, e2);
    if e0.len() > 0 {
        lemma_consistent(retry_count, e0.drop_last());
    }
    assert(e0.len() == 0);
    assert(events[0] == e1.last() && events[1] == e2.last() && events[2] == events.last());
}

/// A task that is called off leaves no part: it is abandoned only after the part was removed, unless
/// the run was called off before the task began.
pub proof fn abandoning_removes_the_part(retry_count: u32, events: Seq<(TaskEvent, bool)>)
    requires
        answers(retry_count, events),
        played(retry_count, events).1 == TaskAction::Finish(TaskOutcome::Abandoned),
    ensures
        events.len() > 0,
        played(retry_count, events.drop_last()).1 is RemovePart,
{
    assert(events.len() > 0);
    let front = events.drop_last();
    assert(played(retry_count, front).0.phase is RemovingPart);
    assert(front.len() > 0);
}

/// Tests whether a task names an address and a path.
pub fn is_named(task: &DownloadTask) -> (r: bool)
    ensures
        r == (task@.url.len() > 0 && task@.path.len() > 0),
{
    !task.url.as_str().is_empty() && !task.path.as_str().is_empty()
}

/// A task that names no address or no path fails before anything is done, unless the run was called
/// off by then.
pub proof fn an_unnamed_task_fails(retry_count: u32)
    ensures
        TaskRun::begun(retry_count, false, false).1 == TaskAction::Finish(
            TaskOutcome::Failed(TaskFailure::Unnamed),
        ),
        TaskRun::begun(retry_count, false, true).1 == TaskAction::Finish(TaskOutcome::Abandoned),
{
}

/// Where the part of a file is kept until the file is whole.
pub fn part_path(path: &str) -> (r: String)
    ensures
        r@ == path@ + ".part"@,
{
    let mut out: String = path.to_owned();
    out.append(".part");
    out
}

/// How a part is moved to its place.
#[derive(Clone, Copy, Debug, PartialEq, Eq, Structural)]
pub enum Promotion {
    /// It is renamed, which takes the place of a file there where the system allows it.
    Rename,
    /// It replaces the file there.
    Replace,
}

/// Chooses how a part is moved to its place: a system whose renaming does not take the place of a
/// file needs the file there replaced, if there is one.
pub fn choose_promotion(rename_replaces: bool, final_exists: bool) -> (r: Promotion)
    ensures
        r == if rename_replaces || !final_exists {
            Promotion::Rename
        } else {
            Promotion::Replace
        },
{
    if rename_replaces || !final_exists {
        Promotion::Rename
    } else {
        Promotion::Replace
    }
}

/// A path in wide characters, with the zero that ends it.
pub fn end_with_zero(path: Vec<u16>) -> (r: Vec<u16>)
    ensures
        r@ == path@.push(0),
{
    let mut out: Vec<u16> = path;
    out.push(0);
    out
}

/// What becomes of a file in its place goes by its length and that on the server: it stays where they are
/// equal or the other is unknown, becomes the part where the server's is longer, and goes where it is
/// shorter.
pub proof fn a_file_in_its_place_is_compared(task: TaskRun, here: u64, there: Option<u64>, cancelled: bool)
    requires
        task.phase == TaskPhase::ProbingRemote(here),
    ensures
        ({
            let (after, action) = task.next(TaskEvent::RemoteLength(there), cancelled);
            &&& there is None || there == Some(here) <==> action == TaskAction::Finish(
                TaskOutcome::Skipped(here),
            )
            &&& there is Some && there->0 > here <==> action is TakeAsPart
            &&& there is Some && there->0 < here <==> action is RemoveFinal
            &&& action is TakeAsPart || action is RemoveFinal ==> after.next(TaskEvent::Done, cancelled).1
                is CreateParent
        }),
{
}

/// The server is asked only about a file that has bytes and no part beside it; without one the download
/// is prepared at once.
pub proof fn the_server_is_asked_about_a_file_without_a_part(
    task: TaskRun,
    length: Option<u64>,
    part: bool,
    cancelled: bool,
)
    requires
        task.phase is MeasuringFinal,
    ensures
        ({
            let (after, action) = task.next(TaskEvent::FinalLength(length), cancelled);
            let (later, next) = after.next(TaskEvent::PartExists(part), cancelled);
            let bytes = length is Some && length->0 > 0;
            &&& bytes <==> action is FindPart
            &&& !bytes <==> action is CreateParent
            &&& bytes ==> (part <==> next is CreateParent) && (!part <==> next is ProbeRemote)
            &&& bytes && !part ==> later.phase == TaskPhase::ProbingRemote(length->0)
        }),
{
}

/// The way to the first attempt: the directory is made, the pause is taken, the start is told, and the
/// attempt of number one is made; a run that is called off removes the part instead, and a task without
/// attempts fails.
pub proof fn a_prepared_task_is_attempted(task: TaskRun)
    requires
        task.phase is CreatingParent,
    ensures
        ({
            let (pausing, a) = task.next(TaskEvent::Done, false);
            let (telling, b) = pausing.next(TaskEvent::Done, false);
            let (attempting, c) = telling.next(TaskEvent::Done, false);
            &&& a is Pause
            &&& task.retry_count >= 1 ==> b is TellStart && c == TaskAction::Attempt(1)
                && attempting.phase == TaskPhase::Attempting(1)
            &&& task.retry_count >= 1 ==> pausing.next(TaskEvent::Done, true).1 is RemovePart
                && telling.next(TaskEvent::Done, true).1 is RemovePart
            &&& task.retry_count == 0 ==> b == TaskAction::Finish(
                TaskOutcome::Failed(TaskFailure::NoAttempts),
            )
            &&& attempting.retry_count == task.retry_count || task.retry_count == 0
        }),
{
}

/// What an attempt fetched is moved to its place, and that decides: the task is completed with that length,
/// or it fails for the move.
pub proof fn a_fetched_file_is_moved(task: TaskRun, n: u32, length: u64, cancelled: bool, later: bool)
    requires
        task.phase == TaskPhase::Attempting(n),
    ensures
        ({
            let (after, action) = task.next(TaskEvent::Fetched(length), cancelled);
            &&& action is Promote
            &&& after.next(TaskEvent::Promoted, later).1 == TaskAction::Finish(
                TaskOutcome::Completed(length),
            )
            &&& after.next(TaskEvent::PromotionFailed, later).1 == TaskAction::Finish(
                TaskOutcome::Failed(TaskFailure::Promotion),
            )
        }),
{
}

/// The attempt after the last one that the plan allows is not made, whatever failed; and an attempt that
/// was called off ends the task once its part is removed.
pub proof fn the_last_failure_ends_the_task(task: TaskRun, n: u32, retryable: bool, cancelled: bool)
    requires
        task.phase == TaskPhase::Attempting(n),
    ensures
        n >= task.retry_count ==> task.next(
            TaskEvent::AttemptFailed { retryable, cancelled: false },
            cancelled,
        ).1 == TaskAction::Finish(TaskOutcome::Failed(TaskFailure::Attempt)),
        ({
            let (after, action) = task.next(
                TaskEvent::AttemptFailed { retryable, cancelled: true },
                cancelled,
            );
            &&& action is RemovePart
            &&& after.next(TaskEvent::Done, cancelled).1 == TaskAction::Finish(TaskOutcome::Abandoned)
        }),
{
}

/// A task that names an address and a path begins with the file in its place, unless the run was called off
/// by then; and the number of attempts that it gets never changes.
pub proof fn a_task_begins_with_its_file(
    retry_count: u32,
    named: bool,
    task: TaskRun,
    event: TaskEvent,
    cancelled: bool,
)
    ensures
        TaskRun::begun(retry_count, named, cancelled).1 is MeasureFinal <==> named && !cancelled,
        TaskRun::begun(retry_count, named, cancelled).1 is MeasureFinal ==> TaskRun::begun(
            retry_count,
            named,
            cancelled,
        ).0.phase is MeasuringFinal,
        TaskRun::begun(retry_count, named, true).1 == TaskAction::Finish(TaskOutcome::Abandoned),
        TaskRun::begun(retry_count, named, cancelled).0.retry_count == retry_count,
        task.next(event, cancelled).0.retry_count == task.retry_count,
{
}

} // verus!
