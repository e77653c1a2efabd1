//! One attempt to fetch a file: what to do next, step by step, and how it ends.

use vstd::prelude::*;

verus! {

/// Whether a status tells of success.
pub open spec fn success(status: u16) -> bool {
    200 <= status <= 299
}

/// Whether a request that got this status is worth another attempt.
pub open spec fn retryable_status(status: u16) -> bool {
    status == 408 || status == 429 || 500 <= status <= 599
}

/// Tests whether a status tells of success.
pub fn is_success(status: u16) -> (r: bool)
    ensures
        r == success(status),
{
    200 <= status && status <= 299
}

/// Tests whether a request that got this status is worth another attempt: it took too long, there
/// were too many, or the server is at fault.
pub fn is_retryable_status(status: u16) -> (r: bool)
    ensures
        r == retryable_status(status),
{
    status == 408 || status == 429 || (500 <= status && status <= 599)
}

/// Why an attempt failed.
#[derive(Clone, Copy, Debug, PartialEq, Eq, Structural)]
pub enum AttemptFailure {
    /// It was called off before the request.
    Cancelled,
    /// It was called off while bytes came in.
    CancelledInTransfer,
    /// The request could not be sent, or got no response.
    Request,
    /// The server has no bytes from where the part ends.
    RangeNotSatisfiable,
    /// The response has a status that is no success.
    Status(u16),
    /// The part could not be opened to be continued.
    OpenAppend,
    /// The part could not be created.
    Create,
    /// The body broke off.
    Stream,
    Write,
    Flush,
    /// No bytes came.
    Empty,
    /// Not as many bytes came as were announced.
    Incomplete { got: u64, expected: u128 },
}

/// What the outside reports to an attempt.
#[derive(Clone, Copy, Debug, PartialEq, Eq, Structural)]
pub enum AttemptEvent {
    /// The length of the part on disk; zero where there is none.
    PartLength(u64),
    /// The part was removed, or could not be.
    PartRemoved,
    SendFailed,
    Response { status: u16, content_length: Option<u64> },
    Opened,
    OpenFailed,
    /// Bytes came in.
    Chunk(u64),
    ChunkFailed,
    BodyEnded,
    Written,
    WriteFailed,
    Flushed,
    FlushFailed,
}

/// What an attempt asks the outside to do next.
#[derive(Clone, Copy, Debug, PartialEq, Eq, Structural)]
pub enum AttemptAction {
    /// To measure the part on disk.
    MeasurePart,
    RemovePart,
    /// To send the request, for the bytes from this position on.
    Send { resume_from: u64 },
    /// To open the part so that bytes are added to it.
    OpenAppend,
    /// To create the part anew.
    CreatePart,
    ReadChunk,
    /// To write the bytes that came in last.
    WriteChunk,
    Flush,
    /// Nothing more: the part is a file of this length.
    Succeed(u64),
    /// Nothing more.
    Fail(AttemptFailure),
}

/// Where an attempt stands.
#[derive(Clone, Copy, Debug, PartialEq, Eq, Structural)]
pub enum AttemptPhase {
    Measuring,
    /// The part is in the way of a range that the task asks for itself.
    RemovingStale,
    Sending,
    /// The server sends everything though the rest was asked for.
    RemovingIgnored,
    Opening,
    Reading,
    Writing(u64),
    Flushing,
    /// The part is of no use.
    Discarding(AttemptFailure),
    Ended,
}

/// One attempt to fetch a file.
#[derive(Clone, Copy, Debug, PartialEq, Eq, Structural)]
pub struct Attempt {
    pub phase: AttemptPhase,
    /// Whether the task's own headers ask for a range.
    pub task_has_range: bool,
    /// Where the request begins.
    pub resume_from: u64,
    /// Whether the bytes are added to the part.
    pub append: bool,
    /// The length of the part.
    pub received: u64,
    /// How many bytes the response announced.
    pub expected: Option<u64>,
}

impl Attempt {
    /// An attempt that has not begun.
    pub open spec fn fresh(task_has_range: bool) -> Attempt {
        Attempt {
            phase: AttemptPhase::Measuring,
            task_has_range,
            resume_from: 0,
            append: false,
            received: 0,
            expected: None,
        }
    }

    /// The attempt in another phase.
    pub open spec fn to(self, phase: AttemptPhase) -> Attempt {
        Attempt { phase, ..self }
    }

    /// What is on disk before the first byte of the body.
    pub open spec fn start(self) -> nat {
        if self.append {
            self.resume_from as nat
        } else {
            0
        }
    }

    /// The length that the file must have, where the response announced one.
    pub open spec fn due(self) -> Option<nat> {
        match self.expected {
            Some(n) => Some(self.start() + n as nat),
            None => None,
        }
    }

    /// Whether an event answers the action that was asked for last. The length of a file is a
    /// number of 64 bits.
    pub open spec fn expects(self, event: AttemptEvent) -> bool {
        match self.phase {
            AttemptPhase::Measuring => event is PartLength,
            AttemptPhase::RemovingStale => event is PartRemoved,
            AttemptPhase::Sending => event is SendFailed || event is Response,
            AttemptPhase::RemovingIgnored => event is PartRemoved,
            AttemptPhase::Opening => event is Opened || event is OpenFailed,
            AttemptPhase::Reading => event is Chunk || event is ChunkFailed || event is BodyEnded,
            AttemptPhase::Writing(n) => event is WriteFailed || (event is Written && self.received + n
                <= u64::MAX),
            AttemptPhase::Flushing => event is Flushed || event is FlushFailed,
            AttemptPhase::Discarding(_) => event is PartRemoved,
            AttemptPhase::Ended => false,
        }
    }

    /// What a response leads to.
    pub open spec fn after_response(self, status: u16, content_length: Option<u64>) -> (
        Attempt,
        AttemptAction,
    ) {
        if self.resume_from > 0 && status == 200 {
            (
                Attempt {
                    phase: AttemptPhase::RemovingIgnored,
                    resume_from: 0,
                    append: false,
                    expected: content_length,
                    ..self
                },
                AttemptAction::RemovePart,
            )
        } else if status == 416 {
            self.failing(AttemptFailure::RangeNotSatisfiable)
        } else if !success(status) {
            self.failing(AttemptFailure::Status(status))
        } else if self.resume_from > 0 && status == 206 {
            (
                Attempt {
                    phase: AttemptPhase::Opening,
                    append: true,
                    expected: content_length,
                    ..self
                },
                AttemptAction::OpenAppend,
            )
        } else {
            (
                Attempt {
                    phase: AttemptPhase::Opening,
                    append: false,
                    expected: content_length,
                    ..self
                },
                AttemptAction::CreatePart,
            )
        }
    }

    /// The end of an attempt that failed.
    pub open spec fn failing(self, failure: AttemptFailure) -> (Attempt, AttemptAction) {
        (self.to(AttemptPhase::Ended), AttemptAction::Fail(failure))
    }

    /// The end of an attempt that failed and whose part is of no use.
    pub open spec fn discarding(self, failure: AttemptFailure) -> (Attempt, AttemptAction) {
        (self.to(AttemptPhase::Discarding(failure)), AttemptAction::RemovePart)
    }

    /// How an attempt whose body has been written ends.
    pub open spec fn concluded(self) -> (Attempt, AttemptAction) {
        if self.received == 0 {
            self.discarding(AttemptFailure::Empty)
        } else {
            match self.due() {
                Some(due) => if self.received == due {
                    (self.to(AttemptPhase::Ended), AttemptAction::Succeed(self.received))
                } else {
                    self.discarding(
                        AttemptFailure::Incomplete { got: self.received, expected: due as u128 },
                    )
                },
                None => (self.to(AttemptPhase::Ended), AttemptAction::Succeed(self.received)),
            }
        }
    }

    /// Where an event leads to, and what is to be done next.
    pub open spec fn next(self, event: AttemptEvent, cancelled: bool) -> (Attempt, AttemptAction) {
        match self.phase {
            AttemptPhase::Measuring => {
                let length = event->PartLength_0;
                if self.task_has_range && length > 0 {
                    (self.to(AttemptPhase::RemovingStale), AttemptAction::RemovePart)
                } else {
                    (
                        Attempt { phase: AttemptPhase::Sending, resume_from: length, ..self },
                        AttemptAction::Send { resume_from: length },
                    )
                }
            },
            AttemptPhase::RemovingStale => (
                Attempt { phase: AttemptPhase::Sending, resume_from: 0, ..self },
                AttemptAction::Send { resume_from: 0 },
            ),
            AttemptPhase::Sending => match event {
                AttemptEvent::Response { status, content_length } => self.after_response(
                    status,
                    content_length,
                ),
                _ => self.failing(AttemptFailure::Request),
            },
            AttemptPhase::RemovingIgnored => (
                self.to(AttemptPhase::Opening),
                AttemptAction::CreatePart,
            ),
            AttemptPhase::Opening => if event is Opened {
                (
                    Attempt {
                        phase: AttemptPhase::Reading,
                        received: self.start() as u64,
                        ..self
                    },
                    AttemptAction::ReadChunk,
                )
            } else if self.append {
                self.failing(AttemptFailure::OpenAppend)
            } else {
                self.failing(AttemptFailure::Create)
            },
            AttemptPhase::Reading => match event {
                AttemptEvent::BodyEnded => (self.to(AttemptPhase::Flushing), AttemptAction::Flush),
                AttemptEvent::Chunk(n) => if cancelled {
                    self.failing(AttemptFailure::CancelledInTransfer)
                } else {
                    (self.to(AttemptPhase::Writing(n)), AttemptAction::WriteChunk)
                },
                _ => if cancelled {
                    self.failing(AttemptFailure::CancelledInTransfer)
                } else {
                    self.discarding(AttemptFailure::Stream)
                },
            },
            AttemptPhase::Writing(n) => if event is Written {
                (
                    Attempt {
                        phase: AttemptPhase::Reading,
                        received: (self.received + n) as u64,
                        ..self
                    },
                    AttemptAction::ReadChunk,
                )
            } else {
                self.failing(AttemptFailure::Write)
            },
            AttemptPhase::Flushing => if event is Flushed {
                self.concluded()
            } else {
                self.failing(AttemptFailure::Flush)
            },
            AttemptPhase::Discarding(failure) => self.failing(failure),
            AttemptPhase::Ended => (self, AttemptAction::Fail(AttemptFailure::Request)),
        }
    }

    /// Begins an attempt.
    pub fn begin(task_has_range: bool, cancelled: bool) -> (r: (Attempt, AttemptAction))
        ensures
            r == if cancelled {
                Attempt::fresh(task_has_range).failing(AttemptFailure::Cancelled)
            } else {
                (Attempt::fresh(task_has_range), AttemptAction::MeasurePart)
            },
    {
        let mut attempt: Attempt = Attempt {
            phase: AttemptPhase::Measuring,
            task_has_range,
            resume_from: 0,
            append: false,
            received: 0,
            expected: None,
        };
        if cancelled {
            attempt.phase = AttemptPhase::Ended;
            (attempt, AttemptAction::Fail(AttemptFailure::Cancelled))
        } else {
            (attempt, AttemptAction::MeasurePart)
        }
    }

    /// Tests whether an event answers the action that was asked for last.
    pub fn is_expected(&self, event: AttemptEvent) -> (r: bool)
        ensures
            r == self.expects(event),
    {
        match self.phase {
            AttemptPhase::Measuring => matches!(event, AttemptEvent::PartLength(_)),
            AttemptPhase::RemovingStale => matches!(event, AttemptEvent::PartRemoved),
            AttemptPhase::Sending => matches!(
                event,
                AttemptEvent::SendFailed | AttemptEvent::Response { .. }
            ),
            AttemptPhase::RemovingIgnored => matches!(event, AttemptEvent::PartRemoved),
            AttemptPhase::Opening => matches!(event, AttemptEvent::Opened | AttemptEvent::OpenFailed),
            AttemptPhase::Reading => matches!(
                event,
                AttemptEvent::Chunk(_) | AttemptEvent::ChunkFailed | AttemptEvent::BodyEnded
            ),
            AttemptPhase::Writing(n) => match event {
                AttemptEvent::WriteFailed => true,
                AttemptEvent::Written => n <= u64::MAX - self.received,
                _ => false,
            },
            AttemptPhase::Flushing => matches!(
                event,
                AttemptEvent::Flushed | AttemptEvent::FlushFailed
            ),
            AttemptPhase::Discarding(_) => matches!(event, AttemptEvent::PartRemoved),
            AttemptPhase::Ended => false,
        }
    }

    /// Ends the attempt with a failure.
    fn fail(&mut self, failure: AttemptFailure) -> (r: AttemptAction)
        ensures
            (*final(self), r) == old(self).failing(failure),
    {
        self.phase = AttemptPhase::Ended;
        AttemptAction::Fail(failure)
    }

    /// Ends the attempt with a failure once the part is removed.
    fn discard(&mut self, failure: AttemptFailure) -> (r: AttemptAction)
        ensures
            (*final(self), r) == old(self).discarding(failure),
    {
        self.phase = AttemptPhase::Discarding(failure);
        AttemptAction::RemovePart
    }

    /// Decides what a response leads to.
    fn take_response(&mut self, status: u16, content_length: Option<u64>) -> (r: AttemptAction)
        ensures
            (*final(self), r) == old(self).after_response(status, content_length),
    {
        if self.resume_from > 0 && status == 200 {
            self.resume_from = 0;
            self.append = false;
            self.expected = content_length;
            self.phase = AttemptPhase::RemovingIgnored;
            return AttemptAction::RemovePart;
        }
        if status == 416 {
            return self.fail(AttemptFailure::RangeNotSatisfiable);
        }
        if !is_success(status) {
            return self.fail(AttemptFailure::Status(status));
        }
        self.append = self.resume_from > 0 && status == 206;
        self.expected = content_length;
        self.phase = AttemptPhase::Opening;
        if self.append {
            AttemptAction::OpenAppend
        } else {
            AttemptAction::CreatePart
        }
    }

    /// Decides how the attempt ends once its body is written.
    fn conclude(&mut self) -> (r: AttemptAction)
        ensures
            (*final(self), r) == old(self).concluded(),
    {
        if self.received == 0 {
            return self.discard(AttemptFailure::Empty);
        }
        if let Some(n) = self.expected {
            let start: u64 = if self.append {
                self.resume_from
            } else {
                0
            };
            let due: u128 = start as u128 + n as u128;
            if self.received as u128 != due {
                return self.discard(
                    AttemptFailure::Incomplete { got: self.received, expected: due },
                );
            }
        }
        self.phase = AttemptPhase::Ended;
        AttemptAction::Succeed(self.received)
    }

    /// Takes an event and tells what is to be done next.
    pub fn step(&mut self, event: AttemptEvent, cancelled: bool) -> (r: AttemptAction)
        requires
            old(self).expects(event),
        ensures
            (*final(self), r) == old(self).next(event, cancelled),
    {
        match self.phase {
            AttemptPhase::Measuring => match event {
                AttemptEvent::PartLength(length) => {
                    if self.task_has_range && length > 0 {
                        self.phase = AttemptPhase::RemovingStale;
                        AttemptAction::RemovePart
                    } else {
                        self.resume_from = length;
                        self.phase = AttemptPhase::Sending;
                        AttemptAction::Send { resume_from: length }
                    }
                },
                _ => self.fail(AttemptFailure::Request),
            },
            AttemptPhase::RemovingStale => {
                self.resume_from = 0;
                self.phase = AttemptPhase::Sending;
                AttemptAction::Send { resume_from: 0 }
            },
            AttemptPhase::Sending => match event {
                AttemptEvent::Response { status, content_length } => self.take_response(
                    status,
                    content_length,
                ),
                _ => self.fail(AttemptFailure::Request),
            },
            AttemptPhase::RemovingIgnored => {
                self.phase = AttemptPhase::Opening;
                AttemptAction::CreatePart
            },
            AttemptPhase::Opening => match event {
                AttemptEvent::Opened => {
                    self.received = if self.append {
                        self.resume_from
                    } else {
                        0
                    };
                    self.phase = AttemptPhase::Reading;
                    AttemptAction::ReadChunk
                },
                _ => if self.append {
                    self.fail(AttemptFailure::OpenAppend)
                } else {
                    self.fail(AttemptFailure::Create)
                },
            },
            AttemptPhase::Reading => match event {
                AttemptEvent::BodyEnded => {
                    self.phase = AttemptPhase::Flushing;
                    AttemptAction::Flush
                },
                AttemptEvent::Chunk(n) => if cancelled {
                    self.fail(AttemptFailure::CancelledInTransfer)
                } else {
                    self.phase = AttemptPhase::Writing(n);
                    AttemptAction::WriteChunk
                },
                _ => if cancelled {
                    self.fail(AttemptFailure::CancelledInTransfer)
                } else {
                    self.discard(AttemptFailure::Stream)
                },
            },
            AttemptPhase::Writing(n) => match event {
                AttemptEvent::Written => {
                    self.received = self.received + n;
                    self.phase = AttemptPhase::Reading;
                    AttemptAction::ReadChunk
                },
                _ => self.fail(AttemptFailure::Write),
            },
            AttemptPhase::Flushing => match event {
                AttemptEvent::Flushed => self.conclude(),
                _ => self.fail(AttemptFailure::Flush),
            },
            AttemptPhase::Discarding(failure) => self.fail(failure),
            AttemptPhase::Ended => AttemptAction::Fail(AttemptFailure::Request),
        }
    }
}

/// Where an attempt stands after events, each with whether the run was called off by then, and
/// what it asked for last.
pub open spec fn played(task_has_range: bool, events: Seq<(AttemptEvent, bool)>) -> (
    Attempt,
    AttemptAction,
)
    decreases events.len(),
{
    if events.len() == 0 {
        (Attempt::fresh(task_has_range), AttemptAction::MeasurePart)
    } else {
        let last = events.last();
        played(task_has_range, events.drop_last()).0.next(last.0, last.1)
    }
}

/// Whether every event answers what the attempt asked for before it.
pub open spec fn answers(task_has_range: bool, events: Seq<(AttemptEvent, bool)>) -> bool
    decreases events.len(),
{
    events.len() > 0 ==> {
        &&& answers(task_has_range, events.drop_last())
        &&& played(task_has_range, events.drop_last()).0.expects(events.last().0)
    }
}

/// How many bytes were written during an attempt.
pub open spec fn bytes_written(task_has_range: bool, events: Seq<(AttemptEvent, bool)>) -> nat
    decreases events.len(),
{
    if events.len() == 0 {
        0
    } else {
        let front = events.drop_last();
        let before = bytes_written(task_has_range, front);
        match played(task_has_range, front).0.phase {
            AttemptPhase::Writing(n) => if events.last().0 is Written {
                before + n as nat
            } else {
                before
            },
            _ => before,
        }
    }
}

/// The length of the part that an attempt found on disk.
pub open spec fn part_found(events: Seq<(AttemptEvent, bool)>) -> nat
    decreases events.len(),
{
    if events.len() == 0 {
        0
    } else {
        match events.last().0 {
            AttemptEvent::PartLength(n) => n as nat,
            _ => part_found(events.drop_last()),
        }
    }
}

/// The status of the response that an attempt got, and the length it announced.
pub open spec fn response_got(events: Seq<(AttemptEvent, bool)>) -> Option<(u16, Option<u64>)>
    decreases events.len(),
{
    if events.len() == 0 {
        None
    } else {
        match events.last().0 {
            AttemptEvent::Response { status, content_length } => Some((status, content_length)),
            _ => response_got(events.drop_last()),
        }
    }
}

/// How much of the part that was found is kept, given the status of the response.
pub open spec fn part_kept(task_has_range: bool, found: nat, status: u16) -> nat {
    if status == 206 && !task_has_range {
        found
    } else {
        0
    }
}

/// What holds of an attempt after any events that answer what it asked for.
spec fn consistent(task_has_range: bool, events: Seq<(AttemptEvent, bool)>) -> bool {
    let (a, action) = played(task_has_range, events);
    let found = part_found(events);
    let written = bytes_written(task_has_range, events);
    let in_body = a.phase is Reading || a.phase is Writing || a.phase is Flushing || a.phase
        is Discarding || action is Succeed;
    let after_response = in_body || a.phase is Opening || a.phase is RemovingIgnored;
    &&& a.task_has_range == task_has_range
    &&& (a.phase is Measuring ==> events.len() == 0)
    &&& (a.phase is RemovingStale ==> task_has_range)
    &&& (a.phase is Measuring || a.phase is RemovingStale || a.phase is Sending || a.phase is Opening
        || a.phase is RemovingIgnored ==> written == 0)
    &&& (a.phase is Sending ==> a.resume_from == if task_has_range {
        0
    } else {
        found
    })
    &&& (after_response ==> {
        &&& response_got(events) matches Some(got)
        &&& success(got.0)
        &&& a.expected == got.1
        &&& a.start() == part_kept(task_has_range, found, got.0)
    })
    &&& (in_body ==> a.received == a.start() + written)
    &&& (a.phase matches AttemptPhase::Discarding(f) ==> f is Stream || f is Empty
        || f is Incomplete)
    &&& (action matches AttemptAction::Succeed(n) ==> {
        &&& n == a.received
        &&& n > 0
        &&& a.due() matches Some(due) ==> n == due
    })
}

proof fn lemma_consistent(task_has_range: bool, events: Seq<(AttemptEvent, bool)>)
    requires
        answers(task_has_range, events),
    ensures
        consistent(task_has_range, events),
    decreases events.len(),
{
    if events.len() > 0 {
        lemma_consistent(task_has_range, events.drop_last());
    }
}

/// A file counts as fetched only when it is whole: the response was a success, bytes are there,
/// they are the part that was kept and the bytes that came, and where the response announced how
/// many would come, that many came. A part is kept only if the server answered the request for the
/// rest with just that.
pub proof fn a_fetched_file_is_whole(
    task_has_range: bool,
    events: Seq<(AttemptEvent, bool)>,
    length: u64,
)
    requires
        answers(task_has_range, events),
        played(task_has_range, events).1 == AttemptAction::Succeed(length),
    ensures
        length > 0,
        response_got(events) matches Some((status, announced)) && success(status) && {
            let kept = part_kept(task_has_range, part_found(events), status);
            &&& length == kept + bytes_written(task_has_range, events)
            &&& announced matches Some(n) ==> length == kept + n
        },
{
    lemma_consistent(task_has_range, events);
}

/// An attempt whose body broke off, was empty or had the wrong length fails only after its part
/// was removed, so the next one does not continue it.
pub proof fn a_useless_part_is_removed(
    task_has_range: bool,
    events: Seq<(AttemptEvent, bool)>,
    failure: AttemptFailure,
)
    requires
        answers(task_has_range, events),
        events.len() > 0,
        played(task_has_range, events).1 == AttemptAction::Fail(failure),
        failure is Stream || failure is Empty || failure is Incomplete,
    ensures
        events.last().0 is PartRemoved,
        played(task_has_range, events.drop_last()).1 is RemovePart,
{
    lemma_consistent(task_has_range, events.drop_last());
    lemma_discarding_removes(task_has_range, events.drop_last());
}

proof fn lemma_discarding_removes(task_has_range: bool, events: Seq<(AttemptEvent, bool)>)
    requires
        answers(task_has_range, events),
        played(task_has_range, events).0.phase is Discarding,
    ensures
        played(task_has_range, events).1 is RemovePart,
{
}

/// The rest of a file is asked for exactly from where the part on disk ends, and only where the
/// task asks for no range itself.
pub proof fn a_request_resumes_the_part(
    task_has_range: bool,
    events: Seq<(AttemptEvent, bool)>,
    resume_from: u64,
)
    requires
        answers(task_has_range, events),
        played(task_has_range, events).1 == (AttemptAction::Send { resume_from }),
    ensures
        resume_from == if task_has_range {
            0
        } else {
            part_found(events)
        },
{
    lemma_consistent(task_has_range, events);
}

/// Bytes are added to a part only when the server sends the rest, as it was asked to.
pub proof fn appending_needs_partial_content(
    task_has_range: bool,
    events: Seq<(AttemptEvent, bool)>,
)
    requires
        answers(task_has_range, events),
        played(task_has_range, events).1 is OpenAppend,
    ensures
        !task_has_range,
        part_found(events) > 0,
        response_got(events) matches Some((status, _)) && status == 206,
{
    lemma_consistent(task_has_range, events);
    if events.len() > 0 {
        lemma_consistent(task_has_range, events.drop_last());
    }
}

/// A run that is called off while bytes come in ends the attempt as cancelled, whatever came last.
pub proof fn cancellation_ends_the_transfer(attempt: Attempt, event: AttemptEvent)
    requires
        attempt.phase is Reading,
        event is Chunk || event is ChunkFailed,
    ensures
        attempt.next(event, true).1 == AttemptAction::Fail(AttemptFailure::CancelledInTransfer),
{
}

/// A status tells of success exactly when its first digit of three is a two, and is worth another attempt
/// exactly when that is a five, or the request took too long or was one too many; never both.
pub proof fn statuses_go_by_their_hundreds(status: u16)
    ensures
        success(status) <==> status / 100 == 2,
        retryable_status(status) <==> status / 100 == 5 || status == 408 || status == 429,
        !(success(status) && retryable_status(status)),
{
}

/// A response is judged by its status, whatever part is on disk. The attempt fails for the range exactly
/// at 416, and for the status at every other one that is no success, with that very status. A success is
/// written: behind the part where the rest was asked for and comes, over the part where everything comes,
/// and where everything comes though the rest was asked for the part goes first.
pub proof fn a_response_is_judged_by_its_status(
    attempt: Attempt,
    status: u16,
    content_length: Option<u64>,
    cancelled: bool,
)
    requires
        attempt.phase is Sending,
    ensures
        ({
            let (after, action) = attempt.next(
                AttemptEvent::Response { status, content_length },
                cancelled,
            );
            let fails = status < 200 || status > 299;
            &&& action == AttemptAction::Fail(AttemptFailure::RangeNotSatisfiable) <==> status == 416
            &&& fails && status != 416 ==> action == AttemptAction::Fail(AttemptFailure::Status(status))
            &&& fails <==> action is Fail
            &&& fails <==> after.phase is Ended
            &&& !fails ==> after.expected == content_length
            &&& action is OpenAppend <==> attempt.resume_from > 0 && status == 206
            &&& action is RemovePart <==> attempt.resume_from > 0 && status == 200
            &&& action is CreatePart <==> !fails && (attempt.resume_from == 0 || (status != 200 && status
                != 206))
            &&& after.append <==> action is OpenAppend || (fails && attempt.append)
            &&& action is OpenAppend ==> after.resume_from == attempt.resume_from
            &&& action is RemovePart ==> after.next(AttemptEvent::PartRemoved, cancelled).1 is CreatePart
        }),
{
}

/// A refusal tells the status that came: the attempt that fails with a status got a response with it that
/// was no success, and the one that fails for the range got a 416.
pub proof fn a_refusal_tells_the_status(task_has_range: bool, events: Seq<(AttemptEvent, bool)>)
    requires
        answers(task_has_range, events),
    ensures
        played(task_has_range, events).1 matches AttemptAction::Fail(failure) ==> {
            &&& failure matches AttemptFailure::Status(s) ==> s != 416 && !(200 <= s <= 299) && (
            response_got(events) matches Some((status, _)) && status == s)
            &&& failure is RangeNotSatisfiable ==> (response_got(events) matches Some((status, _)) && status
                == 416)
        },
{
    if events.len() > 0 {
        lemma_consistent(task_has_range, events.drop_last());
    }
}

/// What a failure is called goes by what failed: the request, the opening of a part to be continued or of
/// a new one, the writing, the flushing, or the reading, after which the part is removed first.
pub proof fn a_failure_tells_what_failed(attempt: Attempt, n: u64, cancelled: bool)
    ensures
        attempt.phase is Sending ==> attempt.next(AttemptEvent::SendFailed, cancelled).1
            == AttemptAction::Fail(AttemptFailure::Request),
        attempt.phase is Opening ==> attempt.next(AttemptEvent::OpenFailed, cancelled).1
            == AttemptAction::Fail(
            if attempt.append {
                AttemptFailure::OpenAppend
            } else {
                AttemptFailure::Create
            },
        ),
        attempt.phase == AttemptPhase::Writing(n) ==> attempt.next(AttemptEvent::WriteFailed, cancelled).1
            == AttemptAction::Fail(AttemptFailure::Write),
        attempt.phase is Flushing ==> attempt.next(AttemptEvent::FlushFailed, cancelled).1
            == AttemptAction::Fail(AttemptFailure::Flush),
        attempt.phase is Reading ==> {
            let (after, action) = attempt.next(AttemptEvent::ChunkFailed, false);
            &&& action is RemovePart
            &&& after.next(AttemptEvent::PartRemoved, cancelled).1 == AttemptAction::Fail(
                AttemptFailure::Stream,
            )
        },
{
}

/// While nothing fails and nobody calls it off, a transfer goes on: the part is measured and the request
/// sent from its end, or without it where the task asks for a range itself; the part is opened; every
/// chunk is written and counted before the next one is read; and the end of the body is flushed.
pub proof fn a_transfer_goes_on(attempt: Attempt, n: u64, cancelled: bool)
    ensures
        attempt.phase is Measuring ==> {
            let (after, action) = attempt.next(AttemptEvent::PartLength(n), cancelled);
            if attempt.task_has_range && n > 0 {
                &&& action is RemovePart
                &&& after.next(AttemptEvent::PartRemoved, cancelled).1 == (AttemptAction::Send {
                    resume_from: 0,
                })
            } else {
                action == (AttemptAction::Send { resume_from: n })
            }
        },
        attempt.phase is Opening ==> {
            let (after, action) = attempt.next(AttemptEvent::Opened, cancelled);
            &&& action is ReadChunk
            &&& attempt.append ==> after.received == attempt.resume_from
            &&& !attempt.append ==> after.received == 0
        },
        attempt.phase is Reading ==> {
            let (after, action) = attempt.next(AttemptEvent::Chunk(n), false);
            let (later, next) = after.next(AttemptEvent::Written, cancelled);
            &&& action is WriteChunk
            &&& attempt.received + n <= u64::MAX ==> later == (Attempt {
                received: (attempt.received + n) as u64,
                ..attempt
            }) && next is ReadChunk
        },
        attempt.phase is Reading ==> attempt.next(AttemptEvent::BodyEnded, cancelled).1 is Flush,
{
}

/// Once the body is written the length decides: without bytes the attempt fails as empty; with another
/// number of them than was announced it fails as incomplete and tells both, in either case after its part
/// was removed; and else it succeeds with that length.
pub proof fn the_length_decides(task_has_range: bool, events: Seq<(AttemptEvent, bool)>, cancelled: bool)
    requires
        answers(task_has_range, events),
        played(task_has_range, events).0.phase is Flushing,
    ensures
        response_got(events) matches Some((status, announced)) && {
            let kept = if status == 206 && !task_has_range {
                part_found(events)
            } else {
                0
            };
            let length = kept + bytes_written(task_has_range, events);
            let (after, action) = played(task_has_range, events).0.next(AttemptEvent::Flushed, cancelled);
            let end = after.next(AttemptEvent::PartRemoved, cancelled).1;
            if length == 0 {
                action is RemovePart && end == AttemptAction::Fail(AttemptFailure::Empty)
            } else if announced is Some && length != kept + announced->0 {
                &&& action is RemovePart
                &&& end == AttemptAction::Fail(
                    AttemptFailure::Incomplete {
                        got: length as u64,
                        expected: (kept + announced->0) as u128,
                    },
                )
            } else {
                action == AttemptAction::Succeed(length as u64)
            }
        },
{
    lemma_consistent(task_has_range, events);
}

/// Bytes count as written only when they were: an event adds the chunk that was being written, if it says
/// that it was, and no other adds anything.
pub proof fn only_written_bytes_count(
    task_has_range: bool,
    events: Seq<(AttemptEvent, bool)>,
    n: u64,
    cancelled: bool,
)
    requires
        answers(task_has_range, events),
        played(task_has_range, events).0.phase is Reading,
    ensures
        ({
            let came = events.push((AttemptEvent::Chunk(n), false));
            let written = came.push((AttemptEvent::Written, cancelled));
            let failed = came.push((AttemptEvent::WriteFailed, cancelled));
            &&& bytes_written(task_has_range, came) == bytes_written(task_has_range, events)
            &&& bytes_written(task_has_range, written) == bytes_written(task_has_range, events) + n
            &&& bytes_written(task_has_range, failed) == bytes_written(task_has_range, events)
        }),
{
    let came = events.push((AttemptEvent::Chunk(n), false));
    let written = came.push((AttemptEvent::Written, cancelled));
    let failed = came.push((AttemptEvent::WriteFailed, cancelled));
    assert(came.drop_last() =~= events);
    assert(written.drop_last() =~= came);
    assert(failed.drop_last() =~= came);
    assert(came.last() == (AttemptEvent::Chunk(n), false));
    assert(played(task_has_range, came).0.phase == AttemptPhase::Writing(n));
    assert(bytes_written(task_has_range, came) == bytes_written(task_has_range, events));
    assert(written.last().0 is Written && !(failed.last().0 is Written));
    assert(bytes_written(task_has_range, written) == bytes_written(task_has_range, came) + n);
    assert(bytes_written(task_has_range, failed) == bytes_written(task_has_range, came));
}

} // verus!
