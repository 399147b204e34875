//! Byte-level behaviour of the codec: varints, frames, the header, and the
//! lenient handling of a truncated tail.

use wpilog::reader::{PlainRecord, WPILOGReader};
use wpilog::varint::{encode_int, le_val_exec};
use wpilog::writer::header_bytes;
use wpilog::{ControlData, LogError, Record, RecordInfo};

fn check_varint(n: u64, expected_len: usize) {
    let enc = encode_int(n);
    assert_eq!(enc.len(), expected_len);
    assert_eq!(le_val_exec(&enc), n);
}

#[test]
fn varint_round_trip_thresholds() {
    check_varint(0, 1);
    check_varint(255, 1);
    check_varint(256, 2);
    check_varint(65535, 2);
    check_varint(65536, 3);
    check_varint(256u64.pow(3) - 1, 3);
    check_varint(256u64.pow(3), 4);
    check_varint(256u64.pow(7), 8);
    check_varint(u64::MAX, 8);
}

#[test]
fn varint_little_endian_bytes() {
    assert_eq!(encode_int(0x0102), vec![0x02, 0x01]);
    assert_eq!(encode_int(0xA1B2C3), vec![0xC3, 0xB2, 0xA1]);
    assert_eq!(encode_int(1_000_000), vec![0x40, 0x42, 0x0F]);
}

fn stream_with(records: &[Record]) -> Vec<u8> {
    let mut bytes = header_bytes();
    for r in records {
        bytes.extend_from_slice(&r.encode());
    }
    bytes
}

fn read_all(bytes: Vec<u8>) -> (Vec<u8>, Vec<PlainRecord>) {
    let mut reader = WPILOGReader::new_raw(bytes).expect("header should parse");
    let extra = reader.extra_header.clone();
    let mut frames = Vec::new();
    while let Some(frame) = reader.next() {
        frames.push(frame);
    }
    (extra, frames)
}

fn round_trip(record: Record) {
    let bytes = stream_with(std::slice::from_ref(&record));
    let (_, frames) = read_all(bytes);
    assert_eq!(frames.len(), 1);
    let frame = frames.into_iter().next().unwrap();
    let back = Record::try_from(frame).expect("frame should interpret");
    assert_eq!(back, record);
}

#[test]
fn frame_round_trip_data_sizes() {
    for size in [0usize, 1, 255, 65536] {
        let payload: Vec<u8> = (0..size).map(|i| (i % 251) as u8).collect();
        round_trip(Record { id: 7, timestamp: 123_456, info: RecordInfo::Data(payload) });
    }
}

#[test]
fn frame_round_trip_large_fields() {
    round_trip(Record {
        id: u32::MAX,
        timestamp: u64::MAX,
        info: RecordInfo::Data(vec![1, 2, 3]),
    });
}

#[test]
fn frame_round_trip_control_start() {
    round_trip(Record {
        id: 42,
        timestamp: 99,
        info: RecordInfo::Control(ControlData::Start {
            name: "NT:Primitives/int64".to_string(),
            entry_type: "int64".to_string(),
            metadata: "{\"source\":\"unit\"}".to_string(),
        }),
    });
}

#[test]
fn frame_round_trip_control_start_empty_strings() {
    round_trip(Record {
        id: 1,
        timestamp: 0,
        info: RecordInfo::Control(ControlData::Start {
            name: String::new(),
            entry_type: String::new(),
            metadata: String::new(),
        }),
    });
}

#[test]
fn frame_round_trip_control_start_non_ascii() {
    round_trip(Record {
        id: 3,
        timestamp: 5,
        info: RecordInfo::Control(ControlData::Start {
            name: "température".to_string(),
            entry_type: "string".to_string(),
            metadata: "µ€𝄞".to_string(),
        }),
    });
}

#[test]
fn frame_round_trip_control_finish() {
    round_trip(Record { id: 9, timestamp: 1, info: RecordInfo::Control(ControlData::Finish) });
}

#[test]
fn frame_round_trip_control_set_metadata() {
    round_trip(Record {
        id: 5,
        timestamp: 2,
        info: RecordInfo::Control(ControlData::SetMetadata("{\"k\":1}".to_string())),
    });
}

#[test]
fn encode_exact_bytes_of_small_data_record() {
    let record = Record { id: 1, timestamp: 2, info: RecordInfo::Data(vec![0xAB]) };
    // control byte 0 (all three fields one byte), id 1, size 1, timestamp 2,
    // then the payload
    assert_eq!(record.encode(), vec![0x00, 0x01, 0x01, 0x02, 0xAB]);
}

#[test]
fn encode_exact_bytes_of_finish_record() {
    let record = Record { id: 1, timestamp: 0, info: RecordInfo::Control(ControlData::Finish) };
    // control byte: size length 1, timestamp length 1; id field one zero
    // byte; size 5; timestamp 0; payload = tag 1 + target id 1 (4 bytes LE)
    assert_eq!(record.encode(), vec![0x00, 0x00, 0x05, 0x00, 0x01, 0x01, 0x00, 0x00, 0x00]);
}

#[test]
fn encode_checked_rejects_zero_id_data() {
    let record = Record { id: 0, timestamp: 2, info: RecordInfo::Data(vec![1]) };
    assert!(record.encode_checked().is_none());
}

#[test]
fn encode_checked_accepts_ordinary_record() {
    let record = Record { id: 4, timestamp: 2, info: RecordInfo::Data(vec![1]) };
    let bytes = record.encode_checked().expect("well-formed record should encode");
    assert_eq!(bytes, record.encode());
}

#[test]
fn header_bytes_parse_back() {
    let (extra, frames) = read_all(header_bytes());
    assert_eq!(extra, Vec::<u8>::new());
    assert_eq!(frames.len(), 0);
}

#[test]
fn header_wrong_magic_is_invalid_header() {
    let mut bytes = header_bytes();
    bytes[0] = b'X';
    assert_eq!(WPILOGReader::new_raw(bytes).unwrap_err(), LogError::InvalidHeader);
}

#[test]
fn header_wrong_version_is_unsupported() {
    let mut bytes = header_bytes();
    bytes[6] = 0x02;
    assert_eq!(WPILOGReader::new_raw(bytes).unwrap_err(), LogError::UnsupportedVersion);
}

#[test]
fn header_short_source_is_truncated() {
    let bytes = header_bytes()[..5].to_vec();
    assert_eq!(WPILOGReader::new_raw(bytes).unwrap_err(), LogError::TruncatedInput);
}

#[test]
fn header_short_extra_header_is_truncated() {
    let mut bytes = header_bytes();
    bytes[8] = 4;  // announces 4 extra bytes that are not there
    assert_eq!(WPILOGReader::new_raw(bytes).unwrap_err(), LogError::TruncatedInput);
}

#[test]
fn header_with_extra_header_kept() {
    let mut bytes = header_bytes();
    bytes[8] = 3;
    bytes.extend_from_slice(&[0xAA, 0xBB, 0xCC]);
    let (extra, frames) = read_all(bytes);
    assert_eq!(extra, vec![0xAA, 0xBB, 0xCC]);
    assert_eq!(frames.len(), 0);
}

#[test]
fn truncated_tail_drops_last_frame_silently() {
    let records = vec![
        Record { id: 1, timestamp: 10, info: RecordInfo::Data(vec![1, 2, 3]) },
        Record { id: 2, timestamp: 20, info: RecordInfo::Data(vec![4, 5]) },
        Record { id: 3, timestamp: 30, info: RecordInfo::Data(vec![6, 7, 8, 9]) },
    ];
    let mut bytes = stream_with(&records);
    bytes.truncate(bytes.len() - 2);
    let (_, frames) = read_all(bytes);
    assert_eq!(frames.len(), 2);
    assert_eq!(frames[0].id, 1);
    assert_eq!(frames[0].data, vec![1, 2, 3]);
    assert_eq!(frames[1].id, 2);
    assert_eq!(frames[1].data, vec![4, 5]);
}

#[test]
fn interpret_empty_control_payload_is_truncated() {
    let frame = PlainRecord { id: 0, timestamp: 0, data: vec![] };
    assert_eq!(Record::try_from(frame).unwrap_err(), LogError::TruncatedPayload);
}

#[test]
fn interpret_short_control_payload_is_truncated() {
    let frame = PlainRecord { id: 0, timestamp: 0, data: vec![0, 1, 0] };
    assert_eq!(Record::try_from(frame).unwrap_err(), LogError::TruncatedPayload);
}

#[test]
fn interpret_unknown_tag_is_malformed() {
    let frame = PlainRecord { id: 0, timestamp: 0, data: vec![3, 1, 0, 0, 0] };
    assert_eq!(Record::try_from(frame).unwrap_err(), LogError::MalformedControl);
}

#[test]
fn interpret_oversized_string_length_is_truncated() {
    // SetMetadata whose length prefix promises 10 bytes but only 2 follow
    let mut data = vec![2, 1, 0, 0, 0];
    data.extend_from_slice(&[10, 0, 0, 0, b'h', b'i']);
    let frame = PlainRecord { id: 0, timestamp: 0, data };
    assert_eq!(Record::try_from(frame).unwrap_err(), LogError::TruncatedPayload);
}

#[test]
fn interpret_invalid_utf8_string() {
    let mut data = vec![2, 1, 0, 0, 0];
    data.extend_from_slice(&[2, 0, 0, 0, 0xFF, 0xFE]);
    let frame = PlainRecord { id: 0, timestamp: 0, data };
    assert_eq!(Record::try_from(frame).unwrap_err(), LogError::InvalidUtf8);
}

#[test]
fn read_variable_int_reads_and_advances() {
    let mut bytes = header_bytes();
    bytes.extend_from_slice(&[0x34, 0x12, 0xFF]);
    let mut reader = WPILOGReader::new_raw(bytes).unwrap();
    assert_eq!(reader.read_variable_int(2).unwrap(), 0x1234);
    assert_eq!(reader.read_variable_int_option(1), Some(0xFF));
    assert_eq!(reader.read_variable_int(1).unwrap_err(), LogError::TruncatedInput);
    assert_eq!(reader.read_variable_int_option(1), None);
}
