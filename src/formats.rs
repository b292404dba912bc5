use vstd::bytes::{spec_u64_from_le_bytes, spec_u64_to_le_bytes, u64_from_le_bytes, u64_to_le_bytes};
use vstd::prelude::*;

use crate::consts::{HEADER_SIZE, INDEX_MAGIC, INDEX_SIZE, LOG_MAGIC, MAX_LOG_SIZE, MIN_LOG_SIZE};

verus! {

/// The 16-byte header that opens every data and index file.
#[derive(Debug, Clone, Copy, PartialEq, Eq, Default)]
pub struct Header {
    pub magic_number: [u8; 8],
    pub attributes: [u8; 8],
}

impl Header {
    /// The bytes of this header as they stand on disk.
    pub open spec fn spec_bytes(self) -> Seq<u8> {
        self.magic_number@ + self.attributes@
    }

    /// The header of a data file: the log magic and zeroed attributes.
    pub fn log() -> (r: Header)
        ensures
            r.magic_number@ == LOG_MAGIC@,
            r.attributes@ == seq![0u8; 8],
    {
        let r = Header { magic_number: LOG_MAGIC, attributes: [0u8; 8] };
        assert(r.attributes@ =~= seq![0u8; 8]);
        r
    }

    /// The header of an index file: the index magic and zeroed attributes.
    pub fn index() -> (r: Header)
        ensures
            r.magic_number@ == INDEX_MAGIC@,
            r.attributes@ == seq![0u8; 8],
    {
        let r = Header { magic_number: INDEX_MAGIC, attributes: [0u8; 8] };
        assert(r.attributes@ =~= seq![0u8; 8]);
        r
    }

    pub fn as_bytes(&self) -> (r: [u8; HEADER_SIZE])
        ensures
            r@ == self.spec_bytes(),
    {
        let mut bytes = [0u8; HEADER_SIZE];
        self.write_to(&mut bytes);
        assert(bytes@ =~= self.spec_bytes());
        bytes
    }

    /// Writes this header over the first 16 bytes of `buf`.
    pub fn write_to(&self, buf: &mut [u8])
        requires
            old(buf)@.len() >= HEADER_SIZE,
        ensures
            final(buf)@ == self.spec_bytes() + old(buf)@.skip(HEADER_SIZE as int),
    {
        copy_into(buf, 0, self.magic_number.as_slice());
        copy_into(buf, 8, self.attributes.as_slice());
        assert(buf@ =~= self.spec_bytes() + old(buf)@.skip(HEADER_SIZE as int));
    }

    pub fn from_bytes(chunk: &[u8; HEADER_SIZE]) -> (r: Header)
        ensures
            r.spec_bytes() == chunk@,
    {
        let mut magic_number = [0u8; 8];
        let mut attributes = [0u8; 8];
        let mut i: usize = 0;
        while i < 8
            invariant
                0 <= i <= 8,
                chunk@.len() == 16,
                magic_number@.len() == 8,
                attributes@.len() == 8,
                forall|j: int| 0 <= j < i ==> magic_number@[j] == chunk@[j],
                forall|j: int| 0 <= j < i ==> attributes@[j] == chunk@[j + 8],
            decreases 8 - i,
        {
            magic_number[i] = chunk[i];
            attributes[i] = chunk[i + 8];
            i += 1;
        }
        let r = Header { magic_number, attributes };
        assert(r.spec_bytes() =~= chunk@);
        r
    }
}

/// A 128-bit time-ordered identifier, held as its 16 bytes. The bytes are in
/// big-endian order: the first six hold the millisecond timestamp.
#[derive(Debug, Clone, Copy, PartialEq, Eq, Hash, PartialOrd, Ord, Default)]
pub struct Uuid {
    pub bytes: [u8; 16],
}

/// Relies on `uuid7::uuid7`: a fresh identifier from the process-wide
/// generator. Nothing is promised of its value.
#[verifier::external_body]
fn next_uuid() -> (r: Uuid) {
    Uuid { bytes: *uuid7::uuid7().as_bytes() }
}

impl Uuid {
    /// A fresh time-ordered identifier.
    pub fn generate() -> (r: Uuid) {
        next_uuid()
    }

    pub fn from_bytes(bytes: [u8; 16]) -> (r: Uuid)
        ensures
            r.bytes == bytes,
    {
        Uuid { bytes }
    }

    pub fn as_bytes(&self) -> (r: &[u8; 16])
        ensures
            *r == self.bytes,
    {
        &self.bytes
    }

    /// Whether two identifiers hold the same bytes.
    pub fn same_as(&self, other: &Uuid) -> (r: bool)
        ensures
            r == (self.bytes@ == other.bytes@),
    {
        let mut i: usize = 0;
        while i < 16
            invariant
                0 <= i <= 16,
                self.bytes@.len() == 16,
                other.bytes@.len() == 16,
                forall|j: int| 0 <= j < i ==> self.bytes@[j] == other.bytes@[j],
            decreases 16 - i,
        {
            if self.bytes[i] != other.bytes[i] {
                return false;
            }
            i += 1;
        }
        assert(self.bytes@ =~= other.bytes@);
        true
    }
}

/// Access to the time embedded in an identifier.
pub trait ToTime {
    spec fn spec_ts(&self) -> nat;

    /// The millisecond timestamp the identifier carries.
    fn to_ts(&self) -> (r: u64)
        ensures
            r == self.spec_ts(),
    ;
}

impl ToTime for Uuid {
    /// The first six bytes, big-endian: milliseconds since the Unix epoch.
    open spec fn spec_ts(&self) -> nat {
        let b = self.bytes@;
        b[0] as nat * 0x100_0000_0000 + b[1] as nat * 0x1_0000_0000 + b[2] as nat * 0x100_0000
            + b[3] as nat * 0x1_0000 + b[4] as nat * 0x100 + b[5] as nat
    }

    fn to_ts(&self) -> (r: u64) {
        let b = &self.bytes;
        b[0] as u64 * 0x100_0000_0000 + b[1] as u64 * 0x1_0000_0000 + b[2] as u64 * 0x100_0000
            + b[3] as u64 * 0x1_0000 + b[4] as u64 * 0x100 + b[5] as u64
    }
}

/// Copies `s[start..start + 16]` into an identifier.
pub(crate) fn uuid_at(s: &[u8], start: usize) -> (r: Uuid)
    requires
        start + 16 <= s@.len(),
    ensures
        r.bytes@ == s@.subrange(start as int, start + 16),
{
    let n = s.len();
    let mut bytes = [0u8; 16];
    let mut i: usize = 0;
    while i < 16
        invariant
            0 <= i <= 16,
            start + 16 <= s@.len() == n,
            bytes@.len() == 16,
            forall|j: int| 0 <= j < i ==> bytes@[j] == s@[start + j],
        decreases 16 - i,
    {
        bytes[i] = s[start + i];
        i += 1;
    }
    assert(bytes@ =~= s@.subrange(start as int, start + 16));
    Uuid { bytes }
}

/// Copies `src` into `dst` at `at`, leaving the other bytes of `dst` as they were.
fn copy_into(dst: &mut [u8], at: usize, src: &[u8])
    requires
        at + src@.len() <= old(dst)@.len(),
    ensures
        final(dst)@ == old(dst)@.take(at as int) + src@ + old(dst)@.skip(at + src@.len()),
{
    let n = dst.len();
    let mut i: usize = 0;
    while i < src.len()
        invariant
            0 <= i <= src@.len(),
            at + src@.len() <= dst@.len() == n,
            dst@.len() == old(dst)@.len(),
            forall|j: int| 0 <= j < at ==> dst@[j] == old(dst)@[j],
            forall|j: int| 0 <= j < i ==> dst@[at + j] == src@[j],
            forall|j: int| at + i <= j < dst@.len() ==> dst@[j] == old(dst)@[j],
        decreases src@.len() - i,
    {
        dst[at + i] = src[i];
        i += 1;
    }
    assert(dst@ =~= old(dst)@.take(at as int) + src@ + old(dst)@.skip(at + src@.len()));
}

/// One record of a data file: an identifier and an opaque body.
#[derive(Debug, Clone, PartialEq, Eq, Default)]
pub struct Log {
    pub uuid: Uuid,
    pub body: Vec<u8>,
}

/// The encoding of a record: 16 identifier bytes, the body length as a
/// little-endian `u64`, then the body.
pub open spec fn encoded(uuid: Seq<u8>, body: Seq<u8>) -> Seq<u8> {
    uuid + spec_u64_to_le_bytes(body.len() as u64) + body
}

/// The total size that the record at the start of `s` declares: its 24
/// header bytes plus the body length written in bytes 16 to 24.
pub open spec fn declared_len(s: Seq<u8>) -> int {
    MIN_LOG_SIZE + spec_u64_from_le_bytes(s.subrange(16, 24))
}

/// The record that starts `s`, as (identifier bytes, body), when `s` holds
/// it whole and it is within the size limit.
pub open spec fn parse_record(s: Seq<u8>) -> Option<(Seq<u8>, Seq<u8>)> {
    if s.len() >= MIN_LOG_SIZE && declared_len(s) <= s.len() && declared_len(s) <= MAX_LOG_SIZE {
        Some((s.take(16), s.subrange(MIN_LOG_SIZE as int, declared_len(s))))
    } else {
        None
    }
}

/// Whether the bytes `s` can never start a valid record, however many bytes
/// follow: the declared size is past the limit and the limit is reached.
pub open spec fn is_malformed(s: Seq<u8>) -> bool {
    s.len() >= MAX_LOG_SIZE && declared_len(s) > MAX_LOG_SIZE
}

/// Why a record could not be decoded.
#[derive(Debug, Clone, Copy, PartialEq, Eq)]
pub enum DecodeError {
    /// The record declares a size past the codec's limit.
    TooLarge { body_len: u64 },
}

impl Log {
    pub open spec fn spec_encode(self) -> Seq<u8> {
        encoded(self.uuid.bytes@, self.body@)
    }

    pub open spec fn spec_byte_len(self) -> int {
        MIN_LOG_SIZE + self.body@.len()
    }

    /// A log with `body` and a fresh identifier.
    pub fn new(body: Vec<u8>) -> (r: Log)
        ensures
            r.body@ == body@,
    {
        Log { uuid: Uuid::generate(), body }
    }

    /// The number of bytes the encoding of this log takes.
    pub fn byte_len(&self) -> (r: usize)
        requires
            self.body@.len() <= usize::MAX - MIN_LOG_SIZE,
        ensures
            r == self.spec_byte_len(),
            r == self.spec_encode().len(),
    {
        proof { lemma_encoded_len(self.uuid.bytes@, self.body@); }
        MIN_LOG_SIZE + self.body.len()
    }

    /// Writes the encoding of this log at the start of `buf`; the bytes
    /// after it are left as they were.
    pub fn encode_into(&self, buf: &mut [u8])
        requires
            self.spec_byte_len() <= old(buf)@.len(),
        ensures
            final(buf)@ == self.spec_encode() + old(buf)@.skip(self.spec_byte_len()),
    {
        let len_bytes = u64_to_le_bytes(self.body.len() as u64);
        copy_into(buf, 0, self.uuid.bytes.as_slice());
        copy_into(buf, 16, len_bytes.as_slice());
        copy_into(buf, MIN_LOG_SIZE, self.body.as_slice());
        assert(buf@ =~= self.spec_encode() + old(buf)@.skip(self.spec_byte_len()));
    }

    /// The encoding of this log.
    pub fn encode(&self) -> (r: Vec<u8>)
        requires
            self.body@.len() <= usize::MAX - MIN_LOG_SIZE,
        ensures
            r@ == self.spec_encode(),
    {
        let len = self.byte_len();
        let mut buf: Vec<u8> = vec![0u8; len];
        self.encode_into(buf.as_mut_slice());
        assert(buf@ =~= self.spec_encode());
        buf
    }
}

/// Decodes the record at the start of `data`.
///
/// Returns the record and the number of bytes it takes when `data` holds it
/// whole; `Ok(None)` when more bytes are needed first; an error when the
/// record declares a size past the codec's limit and `data` reaches that
/// limit, so that no further bytes could complete it.
pub fn try_decode(data: &[u8]) -> (r: Result<Option<(Log, u64)>, DecodeError>)
    ensures
        match r {
            Ok(Some((log, n))) => parse_record(data@) == Some((log.uuid.bytes@, log.body@))
                && n == declared_len(data@),
            Ok(None) => parse_record(data@) is None && !is_malformed(data@),
            Err(_) => is_malformed(data@),
        },
{
    let n = data.len();
    if n < MIN_LOG_SIZE {
        return Ok(None);
    }
    let body_len = u64_from_le_bytes(vstd::slice::slice_subrange(data, 16, MIN_LOG_SIZE));
    if body_len > (MAX_LOG_SIZE - MIN_LOG_SIZE) as u64 {
        if n >= MAX_LOG_SIZE {
            return Err(DecodeError::TooLarge { body_len });
        }
        return Ok(None);
    }
    let total = MIN_LOG_SIZE + body_len as usize;
    if total > n {
        return Ok(None);
    }
    let uuid = uuid_at(data, 0);
    let body = vstd::slice::slice_to_vec(vstd::slice::slice_subrange(data, MIN_LOG_SIZE, total));
    Ok(Some((Log { uuid, body }, total as u64)))
}

/// Decoding what `encoded` wrote gives back the identifier and the body,
/// whatever bytes follow.
pub proof fn lemma_parse_encoded(uuid: Seq<u8>, body: Seq<u8>, rest: Seq<u8>)
    requires
        uuid.len() == 16,
        MIN_LOG_SIZE + body.len() <= MAX_LOG_SIZE,
    ensures
        declared_len(encoded(uuid, body) + rest) == MIN_LOG_SIZE + body.len(),
        parse_record(encoded(uuid, body) + rest) == Some((uuid, body)),
{
    vstd::bytes::lemma_auto_spec_u64_to_from_le_bytes();
    let s = encoded(uuid, body) + rest;
    assert(s.subrange(16, 24) =~= spec_u64_to_le_bytes(body.len() as u64));
    assert(s.take(16) =~= uuid);
    assert(s.subrange(MIN_LOG_SIZE as int, MIN_LOG_SIZE + body.len()) =~= body);
}

/// A record that decodes from `s` is exactly the first `declared_len(s)`
/// bytes of `s`, re-encoded.
pub proof fn lemma_parse_prefix(s: Seq<u8>)
    requires
        parse_record(s) is Some,
    ensures
        match parse_record(s) {
            Some((uuid, body)) => encoded(uuid, body) == s.take(declared_len(s)),
            None => false,
        },
{
    vstd::bytes::lemma_auto_spec_u64_to_from_le_bytes();
    let n = spec_u64_from_le_bytes(s.subrange(16, 24));
    assert(spec_u64_to_le_bytes(n) == s.subrange(16, 24));
    let (uuid, body) = parse_record(s)->0;
    assert(encoded(uuid, body) =~= s.take(declared_len(s)));
}

/// One entry of an index file: the identifier of a log and the offset at
/// which it starts in the data file's payload space.
#[derive(Debug, Clone, Copy, PartialEq, Eq, Default)]
pub struct UuidIndex {
    pub uuid: Uuid,
    pub offset: u64,
}

/// The encoding of an index entry: 16 identifier bytes, then the offset as
/// a little-endian `u64`.
pub open spec fn index_bytes(uuid: Seq<u8>, offset: u64) -> Seq<u8> {
    uuid + spec_u64_to_le_bytes(offset)
}

impl UuidIndex {
    pub open spec fn spec_bytes(self) -> Seq<u8> {
        index_bytes(self.uuid.bytes@, self.offset)
    }

    pub fn new(uuid: Uuid, offset: u64) -> (r: UuidIndex)
        ensures
            r.uuid == uuid,
            r.offset == offset,
    {
        UuidIndex { uuid, offset }
    }

    pub fn as_bytes(&self) -> (r: [u8; INDEX_SIZE])
        ensures
            r@ == self.spec_bytes(),
    {
        let mut bytes = [0u8; INDEX_SIZE];
        self.write_to(&mut bytes);
        bytes
    }

    /// Writes the 24 bytes of this entry into `slot`.
    pub fn write_to(&self, slot: &mut [u8; INDEX_SIZE])
        ensures
            final(slot)@ == self.spec_bytes(),
    {
        proof { vstd::bytes::lemma_auto_spec_u64_to_from_le_bytes(); }
        let offset_bytes = u64_to_le_bytes(self.offset);
        let mut i: usize = 0;
        while i < 16
            invariant
                0 <= i <= 16,
                slot@.len() == 24,
                forall|j: int| 0 <= j < i ==> slot@[j] == self.uuid.bytes@[j],
            decreases 16 - i,
        {
            slot[i] = self.uuid.bytes[i];
            i += 1;
        }
        while i < 24
            invariant
                16 <= i <= 24,
                slot@.len() == 24,
                offset_bytes@ == spec_u64_to_le_bytes(self.offset),
                offset_bytes@.len() == 8,
                forall|j: int| 0 <= j < 16 ==> slot@[j] == self.uuid.bytes@[j],
                forall|j: int| 16 <= j < i ==> slot@[j] == offset_bytes@[j - 16],
            decreases 24 - i,
        {
            slot[i] = offset_bytes[i - 16];
            i += 1;
        }
        assert(slot@ =~= self.spec_bytes());
    }

    pub fn from_bytes(chunk: &[u8; INDEX_SIZE]) -> (r: UuidIndex)
        ensures
            r.spec_bytes() == chunk@,
    {
        proof { vstd::bytes::lemma_auto_spec_u64_to_from_le_bytes(); }
        let uuid = uuid_at(chunk.as_slice(), 0);
        let offset = u64_from_le_bytes(vstd::slice::slice_subrange(chunk.as_slice(), 16, INDEX_SIZE));
        let r = UuidIndex { uuid, offset };
        assert(r.spec_bytes() =~= chunk@);
        r
    }
}

pub proof fn lemma_encoded_len(uuid: Seq<u8>, body: Seq<u8>)
    ensures
        encoded(uuid, body).len() == uuid.len() + 8 + body.len(),
{
    vstd::bytes::lemma_auto_spec_u64_to_from_le_bytes();
}

/// The encodings of `logs`, each given as (identifier bytes, body), laid
/// end to end.
pub open spec fn encode_all(logs: Seq<(Seq<u8>, Seq<u8>)>) -> Seq<u8>
    decreases logs.len(),
{
    if logs.len() == 0 {
        Seq::empty()
    } else {
        encoded(logs[0].0, logs[0].1) + encode_all(logs.skip(1))
    }
}

/// The logs read one after another from the start of `data`, up to the
/// first place where no whole log stands.
pub open spec fn decode_all(data: Seq<u8>) -> Seq<(Seq<u8>, Seq<u8>)>
    decreases data.len(),
{
    match parse_record(data) {
        Some(rec) => if MIN_LOG_SIZE <= declared_len(data) <= data.len() {
            seq![rec] + decode_all(data.skip(declared_len(data)))
        } else {
            Seq::empty()
        },
        None => Seq::empty(),
    }
}

/// Encoding one more log adds its encoding at the end.
pub proof fn lemma_encode_all_push(logs: Seq<(Seq<u8>, Seq<u8>)>, x: (Seq<u8>, Seq<u8>))
    ensures
        encode_all(logs.push(x)) == encode_all(logs) + encoded(x.0, x.1),
    decreases logs.len(),
{
    if logs.len() == 0 {
        let one = logs.push(x);
        assert(one.skip(1) =~= Seq::<(Seq<u8>, Seq<u8>)>::empty());
        assert(one[0] == x);
        assert(encode_all(one.skip(1)) == Seq::<u8>::empty());
        assert(encode_all(one) == encoded(x.0, x.1) + encode_all(one.skip(1)));
        assert(encode_all(logs) == Seq::<u8>::empty());
        assert(encode_all(one) =~= encode_all(logs) + encoded(x.0, x.1));
    } else {
        assert(logs.push(x).skip(1) =~= logs.skip(1).push(x));
        lemma_encode_all_push(logs.skip(1), x);
        assert(encode_all(logs.push(x)) =~= encode_all(logs) + encoded(x.0, x.1));
    }
}

/// Logs encoded end to end read back as the same logs, in the same order.
pub proof fn lemma_round_trip(logs: Seq<(Seq<u8>, Seq<u8>)>)
    requires
        forall|i: int| #![trigger logs[i]] 0 <= i < logs.len() ==> logs[i].0.len() == 16
            && MIN_LOG_SIZE + logs[i].1.len() <= MAX_LOG_SIZE,
    ensures
        decode_all(encode_all(logs)) == logs,
    decreases logs.len(),
{
    if logs.len() == 0 {
        assert(parse_record(Seq::<u8>::empty()) is None);
        assert(decode_all(encode_all(logs)) =~= logs);
    } else {
        let (uuid, body) = logs[0];
        let rest = encode_all(logs.skip(1));
        assert forall|i: int| #![trigger logs.skip(1)[i]] 0 <= i < logs.skip(1).len() implies logs.skip(1)[i].0.len() == 16
            && MIN_LOG_SIZE + logs.skip(1)[i].1.len() <= MAX_LOG_SIZE by {
            assert(logs.skip(1)[i] == logs[i + 1]);
        }
        lemma_round_trip(logs.skip(1));
        lemma_parse_encoded(uuid, body, rest);
        lemma_encoded_len(uuid, body);
        let all = encoded(uuid, body) + rest;
        assert(all.skip(declared_len(all)) =~= rest);
        assert(decode_all(all) =~= seq![(uuid, body)] + logs.skip(1));
        assert(seq![(uuid, body)] + logs.skip(1) =~= logs);
    }
}

} // verus!
