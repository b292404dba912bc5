use limlog::consts::{HEADER_SIZE, INDEX_SIZE, MAX_LOG_SIZE, MIN_LOG_SIZE};
use limlog::formats::{try_decode, DecodeError, Header, Log, ToTime, Uuid, UuidIndex};

const LOG1: [u8; 25] = [
    0x00, 0x00, 0x00, 0x00, 0x00, 0x01, 0x00, 0x00, 0x00, 0x00, 0x00, 0x00, 0x00, 0x00, 0x00,
    0x00, // uuid
    0x01, 0x00, 0x00, 0x00, 0x00, 0x00, 0x00, 0x00, // body length
    0x0A, // body
];
const LOG2: [u8; 25] = [
    0x00, 0x00, 0x00, 0x00, 0x00, 0x02, 0x00, 0x00, 0x00, 0x00, 0x00, 0x00, 0x00, 0x00, 0x00,
    0x00, // uuid
    0x01, 0x00, 0x00, 0x00, 0x00, 0x00, 0x00, 0x00, // body length
    0x0B, // body
];
const LOG3: [u8; 25] = [
    0x00, 0x00, 0x00, 0x00, 0x00, 0x03, 0x00, 0x00, 0x00, 0x00, 0x00, 0x00, 0x00, 0x00, 0x00,
    0x00, // uuid
    0x01, 0x00, 0x00, 0x00, 0x00, 0x00, 0x00, 0x00, // body length
    0x0C, // body
];

const INDEX1: [u8; 24] = [
    0x00, 0x00, 0x00, 0x00, 0x00, 0x01, 0x00, 0x00, 0x00, 0x00, 0x00, 0x00, 0x00, 0x00, 0x00,
    0x00, // uuid
    0x18, 0x00, 0x00, 0x00, 0x00, 0x00, 0x00, 0x00, // offset
];
const INDEX2: [u8; 24] = [
    0xFF, 0xFF, 0xFF, 0xFF, 0xFF, 0xFF, 0x00, 0x00, 0x00, 0x00, 0x00, 0x00, 0x00, 0x00, 0x00,
    0x00, // uuid
    114, 5, 14, 0x00, 0x00, 0x00, 0x00, 0x00, // offset
];

const LOG_FILE_HEADER: [u8; 16] = [
    b'L', b'I', b'M', b'_', b'L', b'O', b'G', 0x00, // magic
    0x00, 0x00, 0x00, 0x00, 0x00, 0x00, 0x00, 0x00, // attributes
];
const INDEX_FILE_HEADER: [u8; 16] = [
    b'L', b'I', b'M', b'_', b'I', b'D', b'X', 0x00, // magic
    0x00, 0x00, 0x00, 0x00, 0x00, 0x00, 0x00, 0x00, // attributes
];

/// An identifier whose first six bytes are `ts` in big-endian order and
/// whose other bytes are `fill`.
fn to_uuid(ts: u64, fill: u8) -> Uuid {
    let mut uuid = [fill; 16];
    uuid[..6].copy_from_slice(&ts.to_be_bytes()[2..8]);
    Uuid::from_bytes(uuid)
}

#[test]
fn format_test_log_format() {
    let Some((l1, 25)) = try_decode(&LOG1).unwrap() else { panic!("Missmatched parsed length") };
    let Some((l2, 25)) = try_decode(&LOG2).unwrap() else { panic!("Missmatched parsed length") };
    let Some((l3, 25)) = try_decode(&LOG3).unwrap() else { panic!("Missmatched parsed length") };

    let idx1 = UuidIndex::from_bytes(&INDEX1);
    let idx2 = UuidIndex::from_bytes(&INDEX2);

    assert_eq!(Log { uuid: to_uuid(1, 0), body: vec![10] }, l1);
    assert_eq!(Log { uuid: to_uuid(2, 0), body: vec![11] }, l2);
    assert_eq!(Log { uuid: to_uuid(3, 0), body: vec![12] }, l3);

    assert_eq!(UuidIndex { uuid: to_uuid(1, 0), offset: 24 }, idx1);
    assert_eq!(UuidIndex { uuid: to_uuid(0x0000FFFFFFFFFFFF, 0), offset: 918898 }, idx2);
}

#[test]
fn format_test_ser() {
    let l1 = Log { uuid: Uuid::from_bytes([0xff; 16]), body: vec![1, 1, 1, 1, 1, 1, 1, 1] };
    let len = l1.byte_len();
    let mut vec = vec![0u8; len];
    l1.encode_into(&mut vec[..]);

    println!("{vec:?}");

    let (l2, n) = try_decode(&vec).unwrap().unwrap();

    assert_eq!(n as usize, len);
    assert_eq!(l1, l2)
}

#[test]
fn test_log_size() {
    let log = Log::default();
    let len = log.encode().len();

    assert_eq!(len, log.byte_len());

    let log = Log::new(vec![1, 1, 4, 5, 1, 4]);
    let len = log.encode().len();

    assert_eq!(len, log.byte_len());
}

#[test]
fn log_format_test_test_index() {
    // index file header serialization
    assert_eq!(INDEX_FILE_HEADER, Header::index().as_bytes());
    // index file header deserialization
    assert_eq!(Header::index(), Header::from_bytes(&INDEX_FILE_HEADER));

    let expected_i1 = UuidIndex::new(to_uuid(1, 0), 24);
    let expected_i2 = UuidIndex::new(to_uuid(0x0000FFFFFFFFFFFF, 0), 918898);

    // index serialization
    assert_eq!(INDEX1, expected_i1.as_bytes());
    assert_eq!(INDEX2, expected_i2.as_bytes());

    // index deserialization
    assert_eq!(expected_i1, UuidIndex::from_bytes(&INDEX1));
    assert_eq!(expected_i2, UuidIndex::from_bytes(&INDEX2));
}

#[test]
fn test_aa() {
    println!("{:x?}", 14280u64.to_le_bytes());
    let entry = UuidIndex::new(to_uuid(0, 0), 14280);
    assert_eq!(entry.as_bytes()[16..], 14280u64.to_le_bytes());
}

#[test]
fn log_header_bytes() {
    assert_eq!(LOG_FILE_HEADER, Header::log().as_bytes());
    assert_eq!(Header::log(), Header::from_bytes(&LOG_FILE_HEADER));
    assert_eq!(Header::log().as_bytes().len(), HEADER_SIZE);

    let mut buf = [0xEEu8; 20];
    Header::index().write_to(&mut buf);
    assert_eq!(buf[..16], INDEX_FILE_HEADER);
    assert_eq!(buf[16..], [0xEE; 4]);
}

#[test]
fn log_encoding_literal_bytes() {
    let log = Log { uuid: to_uuid(1, 0), body: vec![0x0A] };
    assert_eq!(log.byte_len(), 25);
    assert_eq!(log.encode(), LOG1.to_vec());

    let empty = Log { uuid: to_uuid(7, 0), body: vec![] };
    assert_eq!(empty.byte_len(), MIN_LOG_SIZE);
    assert_eq!(empty.encode().len(), 24);
}

#[test]
fn encode_into_keeps_following_bytes() {
    let log = Log { uuid: to_uuid(2, 0), body: vec![0x0B] };
    let mut buf = [0x55u8; 30];
    log.encode_into(&mut buf);
    assert_eq!(buf[..25], LOG2);
    assert_eq!(buf[25..], [0x55; 5]);
}

#[test]
fn decode_needs_more_bytes() {
    assert_eq!(try_decode(&[]), Ok(None));
    assert_eq!(try_decode(&LOG1[..10]), Ok(None));
    assert_eq!(try_decode(&LOG1[..24]), Ok(None));
    assert_eq!(try_decode(&LOG1[..]).unwrap().unwrap().1, 25);
}

#[test]
fn decode_consumes_one_record_of_many() {
    let mut data = LOG1.to_vec();
    data.extend_from_slice(&LOG2);
    let (log, n) = try_decode(&data).unwrap().unwrap();
    assert_eq!(n, 25);
    assert_eq!(log.body, vec![0x0A]);
    let (log, n) = try_decode(&data[25..]).unwrap().unwrap();
    assert_eq!(n, 25);
    assert_eq!(log.body, vec![0x0B]);
}

#[test]
fn decode_rejects_oversized_record() {
    let mut data = vec![0u8; MAX_LOG_SIZE];
    data[16..24].copy_from_slice(&5000u64.to_le_bytes());
    assert_eq!(try_decode(&data), Err(DecodeError::TooLarge { body_len: 5000 }));
    // before the limit is reached the record might still be incomplete
    assert_eq!(try_decode(&data[..100]), Ok(None));
    // a record exactly at the limit decodes
    let body = vec![7u8; MAX_LOG_SIZE - MIN_LOG_SIZE];
    let log = Log { uuid: to_uuid(9, 1), body };
    let (back, n) = try_decode(&log.encode()).unwrap().unwrap();
    assert_eq!(n as usize, MAX_LOG_SIZE);
    assert_eq!(back, log);
}

#[test]
fn round_trip_many_logs() {
    let logs: Vec<Log> = (0..20u8)
        .map(|i| Log { uuid: to_uuid(i as u64, i), body: vec![i; i as usize * 3] })
        .collect();
    let mut data = Vec::new();
    for log in &logs {
        data.extend_from_slice(&log.encode());
    }
    let mut at = 0usize;
    let mut back = Vec::new();
    while let Some((log, n)) = try_decode(&data[at..]).unwrap() {
        back.push(log);
        at += n as usize;
    }
    assert_eq!(at, data.len());
    assert_eq!(back, logs);
}

#[test]
fn timestamp_from_identifier() {
    assert_eq!(to_uuid(1, 0).to_ts(), 1);
    assert_eq!(to_uuid(0x0000FFFFFFFFFFFF, 0xAB).to_ts(), 0xFFFFFFFFFFFF);
    assert_eq!(to_uuid(1_700_000_000_123, 0x11).to_ts(), 1_700_000_000_123);
}

#[test]
fn index_entry_sizes() {
    let entry = UuidIndex::new(to_uuid(3, 0), 50);
    let bytes = entry.as_bytes();
    assert_eq!(bytes.len(), INDEX_SIZE);
    assert_eq!(bytes[16..], [0x32, 0, 0, 0, 0, 0, 0, 0]);
    let mut slot = [0xFFu8; 24];
    entry.write_to(&mut slot);
    assert_eq!(slot, bytes);
}

#[test]
fn identifiers_from_one_writer_do_not_decrease() {
    let first = Log::new(vec![1]);
    let second = Log::new(vec![2]);
    assert!(first.uuid <= second.uuid);
    assert!(first.uuid.to_ts() <= second.uuid.to_ts());
    assert_ne!(first.uuid, second.uuid);
    assert!(!first.uuid.same_as(&second.uuid));
    assert!(first.uuid.same_as(&first.uuid.clone()));
}
