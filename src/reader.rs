use vstd::prelude::*;

use crate::consts::MIN_LOG_SIZE;
use crate::error::ErrorType;
use crate::formats::{declared_len, is_malformed, parse_record, try_decode, DecodeError, Log};

verus! {

/// What a reader does next, given what it observes of its segment.
#[derive(Debug, Clone, Copy, PartialEq, Eq)]
pub enum ReadStep {
    /// At least a log header is unread: decode at the cursor.
    Decode,
    /// The segment is finished and read to its end, and a newer segment is
    /// active: move to it, from its start.
    Follow,
    /// The segment is finished and read to its end, and so is the active
    /// one: the appender has stopped and the stream ends.
    End,
    /// Wait until the appender commits more or finishes the segment.
    Wait,
}

/// The number of committed bytes a reader at `read_at` has not read yet.
pub open spec fn unread(read_at: int, offset: int) -> int {
    if read_at <= offset {
        offset - read_at
    } else {
        0
    }
}

/// A reader's position in the payload space of the segment it reads.
#[derive(Debug, Clone, Copy, PartialEq, Eq)]
pub struct Reader {
    read_at: usize,
}

impl Reader {
    pub closed spec fn spec_read_at(&self) -> int {
        self.read_at as int
    }

    /// A reader at the start of a segment.
    pub fn start() -> (r: Reader)
        ensures
            r.spec_read_at() == 0,
    {
        Reader { read_at: 0 }
    }

    /// A reader at `read_at` of a segment whose committed offset is
    /// `offset`: refused when it is past that offset.
    pub fn at(read_at: usize, offset: usize) -> (r: Result<Reader, ErrorType>)
        ensures
            read_at <= offset <==> r is Ok,
            r is Ok ==> r->Ok_0.spec_read_at() == read_at,
            r is Err ==> r->Err_0 == (ErrorType::InvalidOffset { maximum: offset, got: read_at }),
    {
        if read_at > offset {
            Err(ErrorType::InvalidOffset { maximum: offset, got: read_at })
        } else {
            Ok(Reader { read_at })
        }
    }

    /// The current read position.
    pub fn cursor(&self) -> (r: usize)
        ensures
            r == self.spec_read_at(),
    {
        self.read_at
    }

    /// The committed bytes not read yet, as a range of the payload space:
    /// from the cursor, or from `offset` if the cursor is past it, to
    /// `offset`.
    pub fn unread_range(&self, offset: usize) -> (r: (usize, usize))
        ensures
            r.1 == offset,
            r.0 == if self.spec_read_at() <= offset { self.spec_read_at() } else { offset as int },
            r.1 - r.0 == unread(self.spec_read_at(), offset as int),
    {
        if self.read_at <= offset {
            (self.read_at, offset)
        } else {
            (offset, offset)
        }
    }

    /// What to do next, given the committed offset of the segment being
    /// read, whether it is finished, and whether the active segment is.
    pub fn step(&self, offset: usize, finished: bool, current_finished: bool) -> (r: ReadStep)
        ensures
            r == ReadStep::Decode <==> unread(self.spec_read_at(), offset as int) >= MIN_LOG_SIZE,
            r == ReadStep::Follow <==> unread(self.spec_read_at(), offset as int) < MIN_LOG_SIZE
                && finished && !current_finished,
            r == ReadStep::End <==> unread(self.spec_read_at(), offset as int) < MIN_LOG_SIZE
                && finished && current_finished,
            r == ReadStep::Wait <==> unread(self.spec_read_at(), offset as int) < MIN_LOG_SIZE
                && !finished,
    {
        let (from, to) = self.unread_range(offset);
        if to - from >= MIN_LOG_SIZE {
            ReadStep::Decode
        } else if !finished {
            ReadStep::Wait
        } else if current_finished {
            ReadStep::End
        } else {
            ReadStep::Follow
        }
    }

    /// Moves to the start of the next segment.
    pub fn follow(&mut self)
        ensures
            final(self).spec_read_at() == 0,
    {
        self.read_at = 0;
    }

    /// Decodes the log at the start of `unread`, the committed bytes from
    /// the cursor on, and moves the cursor past it. The cursor stays where
    /// it is when more bytes are needed or the bytes are malformed.
    pub fn decode_next(&mut self, unread: &[u8]) -> (r: Result<Option<Log>, DecodeError>)
        requires
            old(self).spec_read_at() + unread@.len() <= usize::MAX,
        ensures
            match r {
                Ok(Some(log)) => parse_record(unread@) == Some((log.uuid.bytes@, log.body@))
                    && final(self).spec_read_at() == old(self).spec_read_at() + declared_len(unread@),
                Ok(None) => parse_record(unread@) is None && !is_malformed(unread@)
                    && final(self).spec_read_at() == old(self).spec_read_at(),
                Err(_) => is_malformed(unread@)
                    && final(self).spec_read_at() == old(self).spec_read_at(),
            },
    {
        match try_decode(unread) {
            Ok(Some((log, n))) => {
                self.read_at = self.read_at + n as usize;
                Ok(Some(log))
            },
            Ok(None) => Ok(None),
            Err(e) => Err(e),
        }
    }
}

} // verus!
