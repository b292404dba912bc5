use vstd::prelude::*;

use crate::formats::DecodeError;

verus! {

/// Errors the engine reports.
#[derive(Debug, Clone, Copy, PartialEq, Eq)]
pub enum ErrorType {
    /// A reader was asked to start past the committed prefix.
    InvalidOffset { maximum: usize, got: usize },
    /// A log whose encoding can never fit in a segment.
    LogTooLarge { size: usize, limit: usize },
    /// Bytes in a segment that do not decode as a log.
    Decode(DecodeError),
    /// The topic no longer accepts logs.
    ChannelSend,
    /// The appender's channel was closed.
    ChannelRecv,
}

} // verus!
