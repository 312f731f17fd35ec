//! The stream of text that a session request's body is handed on as.
//!
//! The body is read line by line, and the line ends that reading strips
//! are put back: after every line the stream yields a newline of its own
//! before it asks for the next line.

use vstd::prelude::*;

verus! {

/// What asking the body for its next line gave.
pub enum LinePoll<T> {
    /// The next line.
    Line(T),
    /// The body has no more lines.
    Finished,
    /// The next line is not there yet.
    Pending,
}

/// What the stream does when it is asked for its next item.
#[derive(Clone, Copy, PartialEq, Eq, Debug, Structural)]
pub enum BufferStep {
    /// Yield a newline, without asking the body.
    Newline,
    /// Ask the body for its next line and hand the answer to `poll_next`.
    PollLines,
}

/// Remembers whether a newline is owed after the line that was yielded last.
pub struct RequestBuffer {
    add_newline: bool,
}

impl RequestBuffer {
    /// Whether the next item is the newline owed after a line.
    pub closed spec fn add_newline(&self) -> bool {
        self.add_newline
    }

    /// A stream that has yielded nothing yet.
    pub fn new() -> (buffer: Self)
        ensures
            !buffer.add_newline(),
    {
        RequestBuffer { add_newline: false }
    }

    /// Says what the next item is made from. A newline that is owed is
    /// yielded now and is owed no longer.
    pub fn begin_poll(&mut self) -> (step: BufferStep)
        ensures
            step == if old(self).add_newline() {
                BufferStep::Newline
            } else {
                BufferStep::PollLines
            },
            !final(self).add_newline(),
    {
        if self.add_newline {
            self.add_newline = false;
            BufferStep::Newline
        } else {
            BufferStep::PollLines
        }
    }

    /// Takes what the body gave and yields the next item: a line is handed
    /// on and a newline is owed after it; a body that has ended, or whose
    /// next line is not there yet, ends the stream.
    pub fn poll_next<T>(&mut self, lines: LinePoll<T>) -> (item: Option<T>)
        ensures
            item == match lines {
                LinePoll::Line(line) => Some(line),
                LinePoll::Finished => None,
                LinePoll::Pending => None,
            },
            final(self).add_newline() == (old(self).add_newline() || lines is Line),
    {
        match lines {
            LinePoll::Line(line) => {
                self.add_newline = true;
                Some(line)
            },
            LinePoll::Finished => None,
            LinePoll::Pending => None,
        }
    }
}

} // verus!
