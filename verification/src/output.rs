//! Whether anyone still reads the events.

use vstd::prelude::*;

verus! {

/// How a write to the output, or a flush of it, ended.
#[derive(Clone, Copy, Debug, PartialEq, Eq, Structural)]
pub enum WriteOutcome {
    Done,
    /// The reader has gone.
    BrokenPipe,
    /// It failed in another way.
    Failed,
}

/// The output that events are written to.
#[derive(Clone, Copy, Debug, PartialEq, Eq, Structural)]
pub struct OutputPipe {
    /// Whether the reader has gone; nothing is written after that.
    pub closed: bool,
}

impl OutputPipe {
    /// An output whose reader is there.
    pub fn new() -> (r: Self)
        ensures
            !r.closed,
    {
        OutputPipe { closed: false }
    }

    /// Takes note of how the write of an event ended, and tells whether to flush it.
    pub fn after_write(&mut self, outcome: WriteOutcome) -> (flush: bool)
        ensures
            flush == (outcome == WriteOutcome::Done),
            final(self).closed == (old(self).closed || outcome == WriteOutcome::BrokenPipe),
    {
        match outcome {
            WriteOutcome::Done => true,
            WriteOutcome::BrokenPipe => {
                self.closed = true;
                false
            },
            WriteOutcome::Failed => false,
        }
    }

    /// Takes note of how the flush of an event ended.
    pub fn after_flush(&mut self, outcome: WriteOutcome)
        ensures
            final(self).closed == (old(self).closed || outcome == WriteOutcome::BrokenPipe),
    {
        match outcome {
            WriteOutcome::BrokenPipe => {
                self.closed = true;
            },
            _ => {},
        }
    }
}

/// Tests whether the reader of the events has gone.
pub fn is_stdout_pipe_closed(pipe: &OutputPipe) -> (r: bool)
    ensures
        r == pipe.closed,
{
    pipe.closed
}

} // verus!
