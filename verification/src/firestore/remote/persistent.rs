//! The decisions of a persistent stream: when to open, hand over, read,
//! retry after a back-off, and finish. The runner performs each action and
//! reports what happened.
use vstd::prelude::*;

verus! {

/// How many back-off waits were taken since the last successful handshake,
/// and how many are allowed (0: no limit).
pub struct Backoff {
    pub max_attempts: usize,
    pub attempt: usize,
}

/// The back-off step: `None` once the allowed waits are used up (the count
/// stays); else the exponent of the next wait, the count so far, and the
/// count goes up by one.
pub open spec fn backoff_next(attempt: usize, max_attempts: usize) -> (Option<usize>, usize) {
    if max_attempts > 0 && attempt >= max_attempts {
        (None, attempt)
    } else {
        (Some(attempt), (attempt + 1) as usize)
    }
}

impl Backoff {
    /// No wait taken yet.
    pub fn new(max_attempts: usize) -> (b: Self)
        ensures
            b.max_attempts == max_attempts,
            b.attempt == 0,
    {
        Backoff { max_attempts, attempt: 0 }
    }

    /// The exponent of the next wait (see [`backoff_next`]).
    pub fn next_delay(&mut self) -> (r: Option<usize>)
        requires
            old(self).attempt < usize::MAX,
        ensures
            (r, final(self).attempt) == backoff_next(old(self).attempt, old(self).max_attempts),
            final(self).max_attempts == old(self).max_attempts,
    {
        if self.max_attempts > 0 && self.attempt >= self.max_attempts {
            return None;
        }
        let exponent = self.attempt;
        self.attempt = self.attempt + 1;
        Some(exponent)
    }

    /// Forgets the waits taken.
    pub fn reset(&mut self)
        ensures
            final(self).attempt == 0,
            final(self).max_attempts == old(self).max_attempts,
    {
        self.attempt = 0;
    }
}

/// What the runner of a persistent stream reports.
#[derive(Clone, Copy, Debug, PartialEq, Eq, Structural)]
pub enum StreamEvent {
    /// It is at the top of its loop (at first, and after each retry).
    Started,
    /// A stream was opened.
    Opened,
    /// Opening a stream failed; the delegate was told of the error.
    OpenFailed,
    /// The delegate took the opened stream.
    HandshakeDone,
    /// The delegate refused the opened stream; it was told of the error.
    HandshakeFailed,
    /// A message arrived; whether the delegate handled it (when not, it was
    /// told of the error).
    Message(bool),
    /// The stream failed; the delegate was told of the error.
    StreamFailed,
    /// The stream ended; the delegate was told that it closed.
    StreamEnded,
}

/// What the runner does next.
#[derive(Clone, Copy, Debug, PartialEq, Eq, Structural)]
pub enum StreamAction {
    /// Open a stream.
    Open,
    /// Hand the opened stream to the delegate.
    Handshake,
    /// Read the next message.
    Read,
    /// Wait the back-off with this exponent, then start again.
    Retry(usize),
    /// Close the stream, wait the back-off with this exponent where there is
    /// one, then start again.
    CloseAndRetry(Option<usize>),
    /// Close the stream, where `close_stream` says so, then start again.
    Restart { close_stream: bool },
    /// Close the stream, where `close_stream` says so, tell the delegate that
    /// the stream closed, and stop.
    Finish { close_stream: bool },
}

/// The next action after `event`, with `running` whether the stream was not
/// stopped and `should_continue` whether the delegate still wants it, both
/// read when the event came; and the back-off count after it.
pub open spec fn stream_step(
    attempt: usize,
    max_attempts: usize,
    running: bool,
    should_continue: bool,
    event: StreamEvent,
) -> (StreamAction, usize) {
    let active = running && should_continue;
    match event {
        StreamEvent::Started => if active {
            (StreamAction::Open, attempt)
        } else {
            (StreamAction::Finish { close_stream: false }, attempt)
        },
        StreamEvent::Opened => if active {
            (StreamAction::Handshake, attempt)
        } else {
            (StreamAction::Finish { close_stream: true }, attempt)
        },
        StreamEvent::OpenFailed => match backoff_next(attempt, max_attempts) {
            (Some(e), next) => (StreamAction::Retry(e), next),
            (None, next) => (StreamAction::Finish { close_stream: false }, next),
        },
        StreamEvent::HandshakeFailed => {
            let (e, next) = backoff_next(attempt, max_attempts);
            (StreamAction::CloseAndRetry(e), next)
        },
        StreamEvent::HandshakeDone => if active {
            (StreamAction::Read, 0)
        } else {
            (StreamAction::Finish { close_stream: true }, 0)
        },
        StreamEvent::Message(handled) => if handled {
            if active {
                (StreamAction::Read, attempt)
            } else {
                (StreamAction::Finish { close_stream: true }, attempt)
            }
        } else if running {
            (StreamAction::Restart { close_stream: true }, attempt)
        } else {
            (StreamAction::Finish { close_stream: true }, attempt)
        },
        StreamEvent::StreamFailed => if running {
            (StreamAction::Restart { close_stream: true }, attempt)
        } else {
            (StreamAction::Finish { close_stream: true }, attempt)
        },
        StreamEvent::StreamEnded => if running {
            (StreamAction::Restart { close_stream: false }, attempt)
        } else {
            (StreamAction::Finish { close_stream: false }, attempt)
        },
    }
}

/// Once stopped, a stream opens, hands over and reads nothing more,
/// whatever the runner reports.
pub proof fn lemma_stopped_stream_does_no_more_work(
    attempt: usize,
    max_attempts: usize,
    should_continue: bool,
    event: StreamEvent,
)
    ensures
        ({
            let action = stream_step(attempt, max_attempts, false, should_continue, event).0;
            action != StreamAction::Open && action != StreamAction::Handshake && action != StreamAction::Read
        }),
{
}

/// With a limit on the waits, the back-off count never passes it, and a
/// wait is only asked for while the count is below it.
pub proof fn lemma_backoff_bounded(
    attempt: usize,
    max_attempts: usize,
    running: bool,
    should_continue: bool,
    event: StreamEvent,
)
    requires
        0 < max_attempts,
        attempt <= max_attempts,
    ensures
        stream_step(attempt, max_attempts, running, should_continue, event).1 <= max_attempts,
        stream_step(attempt, max_attempts, running, should_continue, event).0 matches StreamAction::Retry(e) ==> e
            < max_attempts,
        stream_step(attempt, max_attempts, running, should_continue, event).0 matches StreamAction::CloseAndRetry(
            Some(e),
        ) ==> e < max_attempts,
{
}

/// Decides what the runner does after `event`; see [`stream_step`].
pub fn next_stream_action(backoff: &mut Backoff, running: bool, should_continue: bool, event: StreamEvent) -> (r:
    StreamAction)
    requires
        old(backoff).attempt < usize::MAX,
    ensures
        (r, final(backoff).attempt) == stream_step(
            old(backoff).attempt,
            old(backoff).max_attempts,
            running,
            should_continue,
            event,
        ),
        final(backoff).max_attempts == old(backoff).max_attempts,
{
    let active = running && should_continue;
    match event {
        StreamEvent::Started => if active {
            StreamAction::Open
        } else {
            StreamAction::Finish { close_stream: false }
        },
        StreamEvent::Opened => if active {
            StreamAction::Handshake
        } else {
            StreamAction::Finish { close_stream: true }
        },
        StreamEvent::OpenFailed => match backoff.next_delay() {
            Some(e) => StreamAction::Retry(e),
            None => StreamAction::Finish { close_stream: false },
        },
        StreamEvent::HandshakeFailed => StreamAction::CloseAndRetry(backoff.next_delay()),
        StreamEvent::HandshakeDone => {
            backoff.reset();
            if active {
                StreamAction::Read
            } else {
                StreamAction::Finish { close_stream: true }
            }
        },
        StreamEvent::Message(handled) => if handled {
            if active {
                StreamAction::Read
            } else {
                StreamAction::Finish { close_stream: true }
            }
        } else if running {
            StreamAction::Restart { close_stream: true }
        } else {
            StreamAction::Finish { close_stream: true }
        },
        StreamEvent::StreamFailed => if running {
            StreamAction::Restart { close_stream: true }
        } else {
            StreamAction::Finish { close_stream: true }
        },
        StreamEvent::StreamEnded => if running {
            StreamAction::Restart { close_stream: false }
        } else {
            StreamAction::Finish { close_stream: false }
        },
    }
}

} // verus!
