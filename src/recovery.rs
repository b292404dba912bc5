use vstd::bytes::{spec_u64_from_le_bytes, u64_from_le_bytes};
use vstd::prelude::*;

use crate::consts::{INDEX_SIZE, MAX_LOG_SIZE, MIN_LOG_SIZE};
use crate::formats::{
    declared_len, encode_all, lemma_encode_all_push, lemma_parse_prefix, parse_record, try_decode,
    uuid_at, Uuid, UuidIndex,
};
use crate::segment::{lemma_parse_extend, paired};

verus! {

/// The identifier bytes of the `i`-th entry of an index payload.
pub open spec fn entry_uuid(index: Seq<u8>, i: int) -> Seq<u8> {
    index.subrange(INDEX_SIZE * i, INDEX_SIZE * i + 16)
}

/// The data offset of the `i`-th entry of an index payload.
pub open spec fn entry_offset(index: Seq<u8>, i: int) -> int {
    spec_u64_from_le_bytes(index.subrange(INDEX_SIZE * i + 16, INDEX_SIZE * i + INDEX_SIZE)) as int
}

/// The nil identifier, all zero bytes: never issued, and what an unwritten
/// index slot holds.
pub open spec fn nil_uuid() -> Seq<u8> {
    Seq::new(16, |k: int| 0u8)
}

/// Whether the `i`-th index entry stands for a log: it is whole, not nil,
/// points at `end` (where the previous log ended), and the data holds a
/// whole log there with the entry's identifier.
pub open spec fn entry_ok(index: Seq<u8>, data: Seq<u8>, i: int, end: int) -> bool {
    &&& INDEX_SIZE * (i + 1) <= index.len()
    &&& entry_uuid(index, i) != nil_uuid()
    &&& entry_offset(index, i) == end
    &&& 0 <= end <= data.len()
    &&& parse_record(data.skip(end)) is Some
    &&& data.skip(end).take(16) == entry_uuid(index, i)
}

/// Replays the first `k` index entries against the data: where the data
/// ends after them, or `None` if one of them does not stand for a log.
pub open spec fn replay(index: Seq<u8>, data: Seq<u8>, k: nat) -> Option<int>
    decreases k,
{
    if k == 0 {
        Some(0)
    } else {
        match replay(index, data, (k - 1) as nat) {
            Some(end) => if entry_ok(index, data, k - 1, end) {
                Some(end + declared_len(data.skip(end)))
            } else {
                None
            },
            None => None,
        }
    }
}

/// What survives of a segment pair: the number of index entries that stand
/// for logs, and the data bytes those logs take.
pub struct Recovered {
    pub entries: usize,
    pub data_len: usize,
    pub model: Ghost<Seq<UuidIndex>>,
    pub logs: Ghost<Seq<(Seq<u8>, Seq<u8>)>>,
}

/// A record that decodes from `s` decodes the same from the bytes it
/// declares, cut from `s`.
proof fn lemma_parse_take(s: Seq<u8>)
    requires
        parse_record(s) is Some,
    ensures
        parse_record(s.take(declared_len(s))) == parse_record(s),
        declared_len(s.take(declared_len(s))) == declared_len(s),
        s.take(declared_len(s)).take(16) == s.take(16),
{
    let t = s.take(declared_len(s));
    assert(t.subrange(16, 24) =~= s.subrange(16, 24));
    assert(t.take(16) =~= s.take(16));
    assert(t.subrange(24, declared_len(s)) =~= s.subrange(24, declared_len(s)));
}

/// Replays the index payload `index` against the data payload `data` and
/// keeps the longest run of entries, from the first, that stand for logs
/// laid end to end. The data past those logs is what a crash left without
/// an index entry.
pub fn recover(index: &[u8], data: &[u8]) -> (r: Recovered)
    ensures
        replay(index@, data@, r.entries as nat) == Some(r.data_len as int),
        replay(index@, data@, (r.entries + 1) as nat) is None,
        r.data_len <= data@.len(),
        INDEX_SIZE * r.entries <= index@.len(),
        r.model@.len() == r.entries,
        paired(data@.take(r.data_len as int), r.model@),
        r.logs@.len() == r.entries,
        data@.take(r.data_len as int) == encode_all(r.logs@),
        forall|i: int| #![trigger r.logs@[i]] 0 <= i < r.logs@.len() ==> {
            &&& r.logs@[i].0.len() == 16
            &&& MIN_LOG_SIZE + r.logs@[i].1.len() <= MAX_LOG_SIZE
            &&& r.model@[i].uuid.bytes@ == r.logs@[i].0
        },
        forall|i: int| #![trigger r.model@[i]] 0 <= i < r.entries ==> r.model@[i].spec_bytes()
            == index@.subrange(INDEX_SIZE * i, INDEX_SIZE * i + INDEX_SIZE),
{
    let n = index.len();
    let dn = data.len();
    let mut count: usize = 0;
    let mut end: usize = 0;
    let ghost mut model: Seq<UuidIndex> = Seq::empty();
    let ghost mut logs: Seq<(Seq<u8>, Seq<u8>)> = Seq::empty();
    assert(data@.take(0) =~= encode_all(logs));
    let nil = Uuid { bytes: [0u8; 16] };
    assert(nil.bytes@ =~= nil_uuid());
    while count < n / INDEX_SIZE
        invariant
            n == index@.len(),
            dn == data@.len(),
            nil.bytes@ == nil_uuid(),
            INDEX_SIZE * count <= n,
            end <= dn,
            replay(index@, data@, count as nat) == Some(end as int),
            model.len() == count,
            paired(data@.take(end as int), model),
            forall|i: int| #![trigger model[i]] 0 <= i < count ==> model[i].spec_bytes()
                == index@.subrange(INDEX_SIZE * i, INDEX_SIZE * i + INDEX_SIZE),
            logs.len() == count,
            data@.take(end as int) == encode_all(logs),
            forall|i: int| #![trigger logs[i]] 0 <= i < logs.len() ==> {
                &&& logs[i].0.len() == 16
                &&& MIN_LOG_SIZE + logs[i].1.len() <= MAX_LOG_SIZE
                &&& model[i].uuid.bytes@ == logs[i].0
            },
        ensures
            replay(index@, data@, count as nat) == Some(end as int),
            replay(index@, data@, (count + 1) as nat) is None,
            end <= dn,
            INDEX_SIZE * count <= n,
            model.len() == count,
            paired(data@.take(end as int), model),
            forall|i: int| #![trigger model[i]] 0 <= i < count ==> model[i].spec_bytes()
                == index@.subrange(INDEX_SIZE * i, INDEX_SIZE * i + INDEX_SIZE),
            logs.len() == count,
            data@.take(end as int) == encode_all(logs),
            forall|i: int| #![trigger logs[i]] 0 <= i < logs.len() ==> {
                &&& logs[i].0.len() == 16
                &&& MIN_LOG_SIZE + logs[i].1.len() <= MAX_LOG_SIZE
                &&& model[i].uuid.bytes@ == logs[i].0
            },
        decreases n - INDEX_SIZE * count,
    {
        let base = INDEX_SIZE * count;
        let uuid = uuid_at(index, base);
        let offset = u64_from_le_bytes(vstd::slice::slice_subrange(index, base + 16, base + INDEX_SIZE));
        assert(uuid.bytes@ == entry_uuid(index@, count as int));
        if uuid.same_as(&nil) || offset != end as u64 {
            return Recovered { entries: count, data_len: end, model: Ghost(model), logs: Ghost(logs) };
        }
        let rest = vstd::slice::slice_subrange(data, end, dn);
        assert(rest@ =~= data@.skip(end as int));
        match try_decode(rest) {
            Ok(Some((log, len))) => {
                if !log.uuid.same_as(&uuid) {
                    return Recovered { entries: count, data_len: end, model: Ghost(model), logs: Ghost(logs) };
                }
                let entry = UuidIndex { uuid, offset };
                proof {
                    let old_data = data@.take(end as int);
                    let rec_len = declared_len(data@.skip(end as int));
                    let new_end = end + rec_len;
                    let new_data = data@.take(new_end);
                    let new_model = model.push(entry);
                    assert(entry_ok(index@, data@, count as int, end as int));
                    assert(log.uuid.bytes@ == data@.skip(end as int).take(16));
                    vstd::bytes::lemma_auto_spec_u64_to_from_le_bytes();
                    let off_bytes = index@.subrange(base + 16, base + INDEX_SIZE);
                    assert(vstd::bytes::spec_u64_to_le_bytes(vstd::bytes::spec_u64_from_le_bytes(off_bytes)) == off_bytes);
                    assert(entry.spec_bytes() =~= index@.subrange(base as int, base + INDEX_SIZE));
                    assert(new_data =~= old_data + data@.skip(end as int).take(rec_len));
                    lemma_parse_take(data@.skip(end as int));
                    assert(new_data.skip(end as int) =~= data@.skip(end as int).take(rec_len));
                    assert forall|i: int| #![trigger new_model[i]] 0 <= i < new_model.len() implies {
                        &&& new_model[i].offset < new_data.len()
                        &&& parse_record(new_data.skip(new_model[i].offset as int)) is Some
                        &&& new_data.skip(new_model[i].offset as int).take(16) == new_model[i].uuid.bytes@
                        &&& new_model[i].offset + declared_len(new_data.skip(new_model[i].offset as int))
                            <= new_data.len()
                    } by {
                        if i < model.len() {
                            let off = model[i].offset as int;
                            assert(model[i] == new_model[i]);
                            assert(new_data.skip(off) =~= old_data.skip(off) + data@.skip(end as int).take(rec_len));
                            lemma_parse_extend(old_data.skip(off), data@.skip(end as int).take(rec_len));
                            assert(new_data.skip(off).take(16) =~= old_data.skip(off).take(16));
                        } else {
                            assert(new_model[i] == entry);
                        }
                    }
                    assert forall|i: int, j: int| 0 <= i < j < new_model.len() implies new_model[i].offset
                        < new_model[j].offset by {
                        assert(model.len() == count);
                        if j < model.len() {
                            assert(model[i] == new_model[i]);
                            assert(model[j] == new_model[j]);
                        } else {
                            assert(model[i] == new_model[i]);
                            assert(model[i].offset < old_data.len());
                        }
                    }
                    assert forall|i: int| #![trigger new_model[i]] 0 <= i < count + 1 implies new_model[i].spec_bytes()
                        == index@.subrange(INDEX_SIZE * i, INDEX_SIZE * i + INDEX_SIZE) by {
                        if i < count {
                            assert(model[i] == new_model[i]);
                        }
                    }
                    lemma_parse_prefix(data@.skip(end as int));
                    lemma_encode_all_push(logs, (log.uuid.bytes@, log.body@));
                    let new_logs = logs.push((log.uuid.bytes@, log.body@));
                    assert(new_data == encode_all(new_logs));
                    assert forall|i: int| #![trigger new_logs[i]] 0 <= i < new_logs.len() implies {
                        &&& new_logs[i].0.len() == 16
                        &&& MIN_LOG_SIZE + new_logs[i].1.len() <= MAX_LOG_SIZE
                        &&& new_model[i].uuid.bytes@ == new_logs[i].0
                    } by {
                        if i < logs.len() {
                            assert(new_logs[i] == logs[i]);
                            assert(new_model[i] == model[i]);
                        }
                    }
                    model = new_model;
                    logs = new_logs;
                }
                end = end + len as usize;
                count = count + 1;
            },
            _ => {
                return Recovered { entries: count, data_len: end, model: Ghost(model), logs: Ghost(logs) };
            },
        }
    }
    Recovered { entries: count, data_len: end, model: Ghost(model), logs: Ghost(logs) }
}

} // verus!
