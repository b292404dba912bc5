use vstd::prelude::*;

use crate::consts::{HEADER_SIZE, INDEX_SIZE, MAX_LOG_SIZE, MIN_LOG_SIZE};
use crate::formats::{
    decode_all, declared_len, encode_all, lemma_encode_all_push, lemma_parse_encoded,
    lemma_round_trip, parse_record, Log, UuidIndex,
};
use crate::recovery::{recover, replay};

verus! {

/// Whether every index entry points at a record of `data` that carries the
/// entry's identifier, with offsets strictly increasing.
pub open spec fn paired(data: Seq<u8>, entries: Seq<UuidIndex>) -> bool {
    &&& forall|i: int| #![trigger entries[i]] 0 <= i < entries.len() ==> {
        &&& entries[i].offset < data.len()
        &&& parse_record(data.skip(entries[i].offset as int)) is Some
        &&& data.skip(entries[i].offset as int).take(16) == entries[i].uuid.bytes@
        &&& entries[i].offset + declared_len(data.skip(entries[i].offset as int)) <= data.len()
    }
    &&& forall|i: int, j: int| 0 <= i < j < entries.len() ==> entries[i].offset < entries[j].offset
}

/// A record that decodes from `s` still decodes, to the same thing, once
/// more bytes follow `s`.
pub proof fn lemma_parse_extend(s: Seq<u8>, t: Seq<u8>)
    requires
        parse_record(s) is Some,
    ensures
        parse_record(s + t) == parse_record(s),
        declared_len(s + t) == declared_len(s),
{
    assert((s + t).subrange(16, 24) =~= s.subrange(16, 24));
    assert((s + t).take(16) =~= s.take(16));
    assert((s + t).subrange(MIN_LOG_SIZE as int, declared_len(s)) =~= s.subrange(
        MIN_LOG_SIZE as int,
        declared_len(s),
    ));
}

/// `b` follows `a` by one call of `write_log`, `write_index` or `finish`:
/// the committed bytes of `b` are those of `a` with bytes added at the end.
pub open spec fn commit_step(a: SegmentWriter, b: SegmentWriter) -> bool {
    exists|t: Seq<u8>| #[trigger] (a.spec_data() + t) == b.spec_data()
}

/// Where the next log goes, as decided before anything is written.
#[derive(Debug, Clone, Copy, PartialEq, Eq)]
pub enum Placement {
    /// The log fits: its encoding takes `len` bytes at `offset`.
    Write { offset: usize, len: usize },
    /// The log does not fit in what is left of this segment pair.
    Roll,
    /// The log does not fit even in an empty segment: its encoding takes
    /// `size` bytes, more than `limit`.
    Reject { size: usize, limit: usize },
}

/// The largest encoded log that a segment pair with `log_size` usable data
/// bytes and `index_size` usable index bytes takes: none when the index
/// cannot hold one entry.
pub open spec fn log_limit(log_size: int, index_size: int) -> int {
    if index_size < INDEX_SIZE {
        0
    } else if log_size < MAX_LOG_SIZE {
        log_size
    } else {
        MAX_LOG_SIZE as int
    }
}

/// The appender's account of the active segment pair: how much of the data
/// file and of the index file is committed, and what was committed.
///
/// The data bytes and index entries themselves live in the files; this
/// value writes them through the slices it is handed and keeps their model.
pub struct SegmentWriter {
    log_size: usize,
    offset: usize,
    index_size: usize,
    index_pos: usize,
    pending: Option<UuidIndex>,
    finished: bool,
    data: Ghost<Seq<u8>>,
    entries: Ghost<Seq<UuidIndex>>,
    logs: Ghost<Seq<(Seq<u8>, Seq<u8>)>>,
}

impl SegmentWriter {
    /// Usable bytes of the data file.
    pub closed spec fn spec_log_size(&self) -> int {
        self.log_size as int
    }

    /// Committed bytes of the data file: the prefix readers may see.
    pub closed spec fn spec_offset(&self) -> int {
        self.offset as int
    }

    /// Usable bytes of the index file.
    pub closed spec fn spec_index_size(&self) -> int {
        self.index_size as int
    }

    /// Bytes of the index file holding written entries.
    pub closed spec fn spec_index_pos(&self) -> int {
        self.index_pos as int
    }

    /// The entry of the last committed log while its index slot is not yet
    /// written.
    pub closed spec fn spec_pending(&self) -> Option<UuidIndex> {
        self.pending
    }

    pub closed spec fn spec_finished(&self) -> bool {
        self.finished
    }

    /// The committed bytes of the data file's payload space.
    pub closed spec fn spec_data(&self) -> Seq<u8> {
        self.data@
    }

    /// One entry per committed log, the pending one included.
    pub closed spec fn spec_entries(&self) -> Seq<UuidIndex> {
        self.entries@
    }

    /// The committed logs, in the order written, as (identifier bytes,
    /// body).
    pub closed spec fn spec_logs(&self) -> Seq<(Seq<u8>, Seq<u8>)> {
        self.logs@
    }

    pub open spec fn index_full(&self) -> bool {
        self.spec_index_pos() + INDEX_SIZE > self.spec_index_size()
    }

    pub open spec fn spec_remaining(&self) -> int {
        self.spec_log_size() - self.spec_offset()
    }

    /// `log` could not fit even in an empty segment of this size.
    pub open spec fn rejects(&self, log: &Log) -> bool {
        log.spec_byte_len() > log_limit(self.spec_log_size(), self.spec_index_size())
    }

    /// `log` would fit in an empty segment but not in what is left of this
    /// one.
    pub open spec fn rolls(&self, log: &Log) -> bool {
        !self.rejects(log) && (log.spec_byte_len() > self.spec_remaining() || self.index_full())
    }

    /// `log` is written to this segment.
    pub open spec fn fits(&self, log: &Log) -> bool {
        !self.rejects(log) && !self.rolls(log)
    }

    /// No log fits in the remaining data space, or the index is full.
    pub open spec fn spec_should_roll(&self) -> bool {
        self.spec_remaining() < MIN_LOG_SIZE || self.index_full()
    }

    pub open spec fn wf(&self) -> bool {
        &&& self.spec_offset() <= self.spec_log_size() <= usize::MAX - HEADER_SIZE
        &&& self.spec_index_pos() <= self.spec_index_size() <= usize::MAX - HEADER_SIZE
        &&& self.spec_data().len() == self.spec_offset()
        &&& self.spec_index_pos() == INDEX_SIZE * (self.spec_entries().len() - if self.spec_pending() is Some {
            1int
        } else {
            0int
        })
        &&& self.spec_pending() is Some ==> self.spec_entries().len() > 0
            && self.spec_entries().last() == self.spec_pending()->0
            && self.spec_index_pos() + INDEX_SIZE <= self.spec_index_size()
        &&& paired(self.spec_data(), self.spec_entries())
        &&& self.spec_data() == encode_all(self.spec_logs())
        &&& self.spec_logs().len() == self.spec_entries().len()
        &&& forall|i: int| #![trigger self.spec_logs()[i]] 0 <= i < self.spec_logs().len() ==> {
            &&& self.spec_logs()[i].0.len() == 16
            &&& MIN_LOG_SIZE + self.spec_logs()[i].1.len() <= MAX_LOG_SIZE
            &&& self.spec_entries()[i].uuid.bytes@ == self.spec_logs()[i].0
        }
    }

    /// An empty segment pair with `log_size` usable data bytes and
    /// `index_size` usable index bytes.
    pub fn new(log_size: usize, index_size: usize) -> (r: SegmentWriter)
        requires
            log_size <= usize::MAX - HEADER_SIZE,
            index_size <= usize::MAX - HEADER_SIZE,
        ensures
            r.wf(),
            r.spec_log_size() == log_size,
            r.spec_index_size() == index_size,
            r.spec_offset() == 0,
            r.spec_index_pos() == 0,
            r.spec_pending() is None,
            !r.spec_finished(),
            r.spec_data() == Seq::<u8>::empty(),
            r.spec_entries() == Seq::<UuidIndex>::empty(),
            r.spec_logs() == Seq::<(Seq<u8>, Seq<u8>)>::empty(),
    {
        let r = SegmentWriter {
            log_size,
            offset: 0,
            index_size,
            index_pos: 0,
            pending: None,
            finished: false,
            data: Ghost(Seq::empty()),
            entries: Ghost(Seq::empty()),
            logs: Ghost(Seq::empty()),
        };
        assert(encode_all(Seq::<(Seq<u8>, Seq<u8>)>::empty()) == Seq::<u8>::empty());
        r
    }

    /// Reopens a segment pair that an earlier run left behind, from the
    /// payload bytes of its index file and of its data file. It keeps the
    /// logs that the index accounts for (see `recover`); the committed
    /// offset ends where they end, and the bytes past it are dropped.
    pub fn resume(log_size: usize, index_size: usize, index: &[u8], data: &[u8]) -> (r:
        SegmentWriter)
        requires
            log_size <= usize::MAX - HEADER_SIZE,
            index_size <= usize::MAX - HEADER_SIZE,
            data@.len() <= log_size,
            index@.len() <= index_size,
        ensures
            r.wf(),
            r.spec_log_size() == log_size,
            r.spec_index_size() == index_size,
            r.spec_pending() is None,
            !r.spec_finished(),
            r.spec_index_pos() == INDEX_SIZE * r.spec_entries().len(),
            replay(index@, data@, r.spec_entries().len()) == Some(r.spec_offset()),
            replay(index@, data@, r.spec_entries().len() + 1) is None,
            r.spec_data() == data@.take(r.spec_offset()),
            r.spec_logs() == decode_all(r.spec_data()),
    {
        let rec = recover(index, data);
        proof { lemma_round_trip(rec.logs@); }
        SegmentWriter {
            log_size,
            offset: rec.data_len,
            index_size,
            index_pos: INDEX_SIZE * rec.entries,
            pending: None,
            finished: false,
            data: Ghost(data@.take(rec.data_len as int)),
            entries: rec.model,
            logs: rec.logs,
        }
    }

    pub fn offset(&self) -> (r: usize)
        ensures
            r == self.spec_offset(),
    {
        self.offset
    }

    pub fn log_size(&self) -> (r: usize)
        ensures
            r == self.spec_log_size(),
    {
        self.log_size
    }

    pub fn index_pos(&self) -> (r: usize)
        ensures
            r == self.spec_index_pos(),
    {
        self.index_pos
    }

    /// Bytes of the data file left for logs.
    pub fn remaining(&self) -> (r: usize)
        requires
            self.wf(),
        ensures
            r == self.spec_remaining(),
    {
        self.log_size - self.offset
    }

    /// Whether the index file cannot take one more entry.
    pub fn is_index_full(&self) -> (r: bool)
        requires
            self.wf(),
        ensures
            r == self.index_full(),
    {
        self.index_size - self.index_pos < INDEX_SIZE
    }

    pub fn is_finished(&self) -> (r: bool)
        ensures
            r == self.spec_finished(),
    {
        self.finished
    }

    /// Decides where `log` goes. It is rejected when no empty segment pair
    /// of these sizes could take it (see `log_limit`); else it rolls over
    /// when it does not fit in the remaining space or the index is full;
    /// else it is written at the committed offset.
    pub fn plan(&self, log: &Log) -> (r: Placement)
        requires
            self.wf(),
        ensures
            r is Reject <==> self.rejects(log),
            r is Roll <==> self.rolls(log),
            r is Write <==> self.fits(log),
            r is Reject ==> r->limit == log_limit(self.spec_log_size(), self.spec_index_size())
                && r->size == if log.spec_byte_len() <= usize::MAX { log.spec_byte_len() } else {
                usize::MAX as int
            },
            r is Write ==> r->offset == self.spec_offset() && r->len == log.spec_byte_len(),
    {
        let limit = if self.index_size < INDEX_SIZE {
            0
        } else if self.log_size < MAX_LOG_SIZE {
            self.log_size
        } else {
            MAX_LOG_SIZE
        };
        let body_len = log.body.len();
        if body_len > limit || limit - body_len < MIN_LOG_SIZE {
            let size = if body_len > usize::MAX - MIN_LOG_SIZE {
                usize::MAX
            } else {
                MIN_LOG_SIZE + body_len
            };
            return Placement::Reject { size, limit };
        }
        let len = MIN_LOG_SIZE + body_len;
        if len > self.remaining() || self.is_index_full() {
            Placement::Roll
        } else {
            Placement::Write { offset: self.offset, len }
        }
    }

    /// Whether the segment pair should be rolled after a write: no log fits
    /// in the remaining data space, or the index is full.
    pub fn should_roll(&self) -> (r: bool)
        requires
            self.wf(),
        ensures
            r == self.spec_should_roll(),
    {
        self.remaining() < MIN_LOG_SIZE || self.is_index_full()
    }

    /// Encodes `log` at the start of `tail`, the writable bytes from the
    /// committed offset on, and commits it: the offset moves past it and
    /// its index entry, returned, waits to be written by `write_index`.
    pub fn write_log(&mut self, log: &Log, tail: &mut [u8]) -> (entry: UuidIndex)
        requires
            old(self).wf(),
            old(self).spec_pending() is None,
            old(self).fits(log),
            log.spec_byte_len() <= old(tail)@.len(),
        ensures
            final(self).wf(),
            final(tail)@ == log.spec_encode() + old(tail)@.skip(log.spec_byte_len()),
            entry.uuid == log.uuid,
            entry.offset == old(self).spec_offset(),
            final(self).spec_data() == old(self).spec_data() + log.spec_encode(),
            commit_step(*old(self), *final(self)),
            final(self).spec_offset() == old(self).spec_offset() + log.spec_byte_len(),
            final(self).spec_entries() == old(self).spec_entries().push(entry),
            final(self).spec_logs() == old(self).spec_logs().push((log.uuid.bytes@, log.body@)),
            final(self).spec_pending() == Some(entry),
            final(self).spec_index_pos() == old(self).spec_index_pos(),
            final(self).spec_log_size() == old(self).spec_log_size(),
            final(self).spec_index_size() == old(self).spec_index_size(),
            final(self).spec_finished() == old(self).spec_finished(),
    {
        log.encode_into(tail);
        let len = log.byte_len();
        let entry = UuidIndex { uuid: log.uuid, offset: self.offset as u64 };
        proof {
            let old_data = self.data@;
            let enc = log.spec_encode();
            let new_data = old_data + enc;
            let old_entries = self.entries@;
            let new_entries = old_entries.push(entry);
            lemma_parse_encoded(log.uuid.bytes@, log.body@, Seq::empty());
            assert(enc + Seq::<u8>::empty() =~= enc);
            assert(new_data.skip(old_data.len() as int) =~= enc);
            assert forall|i: int| #![trigger new_entries[i]] 0 <= i < new_entries.len() implies {
                &&& new_entries[i].offset < new_data.len()
                &&& parse_record(new_data.skip(new_entries[i].offset as int)) is Some
                &&& new_data.skip(new_entries[i].offset as int).take(16) == new_entries[i].uuid.bytes@
                &&& new_entries[i].offset + declared_len(new_data.skip(new_entries[i].offset as int)) <= new_data.len()
            } by {
                if i < old_entries.len() {
                    let off = old_entries[i].offset as int;
                    assert(old_entries[i] == new_entries[i]);
                    assert(new_data.skip(off) =~= old_data.skip(off) + enc);
                    lemma_parse_extend(old_data.skip(off), enc);
                    assert(new_data.skip(off).take(16) =~= old_data.skip(off).take(16));
                } else {
                    assert(new_entries[i] == entry);
                    assert(new_data.skip(old_data.len() as int).take(16) =~= log.uuid.bytes@);
                }
            }
            assert forall|i: int, j: int| 0 <= i < j < new_entries.len() implies new_entries[i].offset
                < new_entries[j].offset by {
                if j < old_entries.len() {
                    assert(old_entries[i] == new_entries[i]);
                    assert(old_entries[j] == new_entries[j]);
                } else {
                    assert(old_entries[i] == new_entries[i]);
                    assert(old_entries[i].offset < old_data.len());
                }
            }
        }
        self.offset = self.offset + len;
        self.data = Ghost(self.data@ + log.spec_encode());
        self.entries = Ghost(self.entries@.push(entry));
        proof {
            lemma_encode_all_push(self.logs@, (log.uuid.bytes@, log.body@));
            let new_logs = self.logs@.push((log.uuid.bytes@, log.body@));
            assert forall|i: int| #![trigger new_logs[i]] 0 <= i < new_logs.len() implies {
                &&& new_logs[i].0.len() == 16
                &&& MIN_LOG_SIZE + new_logs[i].1.len() <= MAX_LOG_SIZE
                &&& self.entries@[i].uuid.bytes@ == new_logs[i].0
            } by {
                if i < self.logs@.len() {
                    assert(new_logs[i] == self.logs@[i]);
                    assert(self.entries@[i] == old(self).entries@[i]);
                }
            }
        }
        self.logs = Ghost(self.logs@.push((log.uuid.bytes@, log.body@)));
        self.pending = Some(entry);
        assert(old(self).spec_data() + log.spec_encode() == self.spec_data());
        entry
    }

    /// Writes the pending index entry into `slot`, the 24 bytes at the
    /// returned position of the index file's payload space, and commits it.
    pub fn write_index(&mut self, slot: &mut [u8; INDEX_SIZE]) -> (pos: usize)
        requires
            old(self).wf(),
            old(self).spec_pending() is Some,
        ensures
            final(self).wf(),
            final(slot)@ == old(self).spec_pending()->0.spec_bytes(),
            commit_step(*old(self), *final(self)),
            pos == old(self).spec_index_pos(),
            final(self).spec_index_pos() == old(self).spec_index_pos() + INDEX_SIZE,
            final(self).spec_pending() is None,
            final(self).spec_data() == old(self).spec_data(),
            final(self).spec_offset() == old(self).spec_offset(),
            final(self).spec_entries() == old(self).spec_entries(),
            final(self).spec_logs() == old(self).spec_logs(),
            final(self).spec_log_size() == old(self).spec_log_size(),
            final(self).spec_index_size() == old(self).spec_index_size(),
            final(self).spec_finished() == old(self).spec_finished(),
    {
        let entry = self.pending.unwrap();
        entry.write_to(slot);
        let pos = self.index_pos;
        self.index_pos = self.index_pos + INDEX_SIZE;
        self.pending = None;
        assert(old(self).spec_data() + Seq::<u8>::empty() == self.spec_data()) by {
            assert(old(self).spec_data() + Seq::<u8>::empty() =~= old(self).spec_data());
        }
        pos
    }

    /// Marks the segment pair finished: no more logs go into it.
    pub fn finish(&mut self)
        ensures
            final(self).spec_finished(),
            commit_step(*old(self), *final(self)),
            final(self).spec_data() == old(self).spec_data(),
            final(self).spec_offset() == old(self).spec_offset(),
            final(self).spec_entries() == old(self).spec_entries(),
            final(self).spec_logs() == old(self).spec_logs(),
            final(self).spec_index_pos() == old(self).spec_index_pos(),
            final(self).spec_pending() == old(self).spec_pending(),
            final(self).spec_log_size() == old(self).spec_log_size(),
            final(self).spec_index_size() == old(self).spec_index_size(),
    {
        self.finished = true;
        assert(old(self).spec_data() + Seq::<u8>::empty() == self.spec_data()) by {
            assert(old(self).spec_data() + Seq::<u8>::empty() =~= old(self).spec_data());
        }
    }

    /// The length the data file is cut to when the segment is closed: the
    /// header and the committed bytes, nothing past them.
    pub fn data_file_len(&self) -> (r: usize)
        requires
            self.wf(),
        ensures
            r == HEADER_SIZE + self.spec_offset(),
            r == HEADER_SIZE + self.spec_data().len(),
    {
        HEADER_SIZE + self.offset
    }

    /// The length the index file is cut to when the segment is closed: the
    /// header and the written entries.
    pub fn index_file_len(&self) -> (r: usize)
        requires
            self.wf(),
        ensures
            r == HEADER_SIZE + self.spec_index_pos(),
    {
        HEADER_SIZE + self.index_pos
    }
}

/// Committed bytes are never rewritten. Along a run of writer states, each
/// taken from the one before by `write_log`, `write_index` or `finish`, the
/// bytes below the offset observed at one state are the same at every
/// later state.
pub proof fn lemma_prefix_immutable(run: Seq<SegmentWriter>, i: int, j: int)
    requires
        forall|k: int| #![trigger run[k]] 0 <= k < run.len() ==> run[k].wf(),
        forall|k: int| 0 <= k < run.len() - 1 ==> commit_step(#[trigger] run[k], run[k + 1]),
        0 <= i <= j < run.len(),
    ensures
        run[i].spec_offset() <= run[j].spec_offset(),
        run[j].spec_data().take(run[i].spec_offset()) == run[i].spec_data(),
    decreases j - i,
{
    if j == i {
        assert(run[i].wf());
        assert(run[i].spec_data().take(run[i].spec_offset()) =~= run[i].spec_data());
    } else {
        lemma_prefix_immutable(run, i, j - 1);
        assert(commit_step(run[j - 1], run[j]));
        let t = choose|t: Seq<u8>| #[trigger] (run[j - 1].spec_data() + t) == run[j].spec_data();
        assert(run[j - 1].wf());
        assert(run[j].wf());
        assert(run[j].spec_data().take(run[i].spec_offset()) =~= run[j - 1].spec_data().take(
            run[i].spec_offset(),
        ));
    }
}

/// Each index entry of a segment pair points at a whole log of its data
/// that carries the entry's identifier, and the entries' offsets strictly
/// increase.
pub proof fn lemma_index_data_pairing(w: SegmentWriter, i: int)
    requires
        w.wf(),
        0 <= i < w.spec_entries().len(),
    ensures
        ({
            let e = w.spec_entries()[i];
            let at = w.spec_data().skip(e.offset as int);
            &&& e.offset < w.spec_offset()
            &&& parse_record(at) is Some
            &&& at.take(16) == e.uuid.bytes@
            &&& e.offset + declared_len(at) <= w.spec_offset()
        }),
        forall|j: int|
            i < j < w.spec_entries().len() ==> w.spec_entries()[i].offset
                < #[trigger] w.spec_entries()[j].offset,
{
    assert(w.spec_entries()[i] == w.spec_entries()[i]);
}

/// Reading a segment from its start gives back every committed log, in the
/// order written, with its identifier and body; and the index entries carry
/// those identifiers in the same order.
pub proof fn lemma_read_back(w: SegmentWriter)
    requires
        w.wf(),
    ensures
        decode_all(w.spec_data()) == w.spec_logs(),
        w.spec_entries().len() == w.spec_logs().len(),
        forall|i: int|
            0 <= i < w.spec_logs().len() ==> #[trigger] w.spec_entries()[i].uuid.bytes@
                == w.spec_logs()[i].0,
{
    lemma_round_trip(w.spec_logs());
}

/// A log that exactly fills the remaining space is written to the current
/// segment, and then the segment rolls: no further log fits in it.
pub proof fn lemma_exact_fill(before: SegmentWriter, log: Log, after: SegmentWriter, next: Log)
    requires
        before.wf(),
        !before.rejects(&log),
        !before.index_full(),
        log.spec_byte_len() == before.spec_remaining(),
        after.wf(),
        after.spec_log_size() == before.spec_log_size(),
        after.spec_index_size() == before.spec_index_size(),
        after.spec_offset() == before.spec_offset() + log.spec_byte_len(),
    ensures
        before.fits(&log),
        after.spec_remaining() == 0,
        after.spec_should_roll(),
        !after.fits(&next),
{
}

/// A log that is not rejected fits in a fresh segment pair of the same
/// sizes, so a log carried over a roll is always written there and the
/// appender never rolls twice for one log.
pub proof fn lemma_carry_fits_fresh(before: SegmentWriter, log: Log, fresh: SegmentWriter)
    requires
        before.wf(),
        !before.rejects(&log),
        fresh.wf(),
        fresh.spec_log_size() == before.spec_log_size(),
        fresh.spec_index_size() == before.spec_index_size(),
        fresh.spec_offset() == 0,
        fresh.spec_index_pos() == 0,
    ensures
        fresh.fits(&log),
{
}

} // verus!
