//! What makes a reliable channel give up.

use vstd::prelude::*;

verus! {

/// A breach of the rules of a reliable channel. It is fatal to the
/// connection.
#[derive(Clone, Copy, PartialEq, Eq, Debug, Structural)]
pub enum ChannelProtocolError {
    /// More messages wait for their acknowledgement than the channel can
    /// tell apart by index.
    TooManyOutstanding,
    /// A message arrived whose index lies beyond the window of the
    /// receiver.
    OutOfWindow,
    /// A message was written as often as it may be and is still not
    /// acknowledged.
    RetriesExhausted,
}

} // verus!
