//! The writer pipeline end to end: id allocation, per-producer ordering,
//! entry lifecycle, shutdown, and the typed payload encodings, all observed
//! through the channel's receiving side and decoded with the reader.

use wpilog::entrytypes::Entry;
use wpilog::reader::{PlainRecord, WPILOGReader};
use wpilog::writer::{TimeProvider, WPILOGWriter};
use wpilog::{ControlData, LogError, Record, RecordInfo};

#[derive(Clone)]
struct FixedTime(u64);

impl TimeProvider for FixedTime {
    fn get_time(&self) -> u64 {
        self.0
    }
}

fn drain(receiver: &kanal::Receiver<Option<Vec<u8>>>) -> Vec<u8> {
    let mut out = Vec::new();
    loop {
        match receiver.recv() {
            Ok(Some(bytes)) => out.extend_from_slice(&bytes),
            Ok(None) => break,
            Err(_) => break,
        }
    }
    out
}

fn parse_records(bytes: Vec<u8>) -> Vec<Record> {
    let mut reader = WPILOGReader::new_raw(bytes).expect("stream should start with the header");
    let mut records = Vec::new();
    while let Some(frame) = reader.next() {
        records.push(Record::try_from(frame).expect("frame should interpret"));
    }
    records
}

#[test]
fn pipeline_ids_start_at_one_and_increase() {
    let (mut writer, receiver) = WPILOGWriter::new(FixedTime(0));
    let a = writer.make_entry("a".into(), "raw".into(), String::new()).unwrap();
    let b = writer.make_entry("b".into(), "raw".into(), String::new()).unwrap();
    let c = writer.make_entry("c".into(), "raw".into(), String::new()).unwrap();
    assert_eq!(a.id(), 1);
    assert_eq!(b.id(), 2);
    assert_eq!(c.id(), 3);
    writer.join().unwrap();
    drop(receiver);
}

#[test]
fn fifo_per_producer_order_kept() {
    let (mut writer, receiver) = WPILOGWriter::new(FixedTime(7));
    let entry = writer.make_entry("e".into(), "raw".into(), String::new()).unwrap();
    entry.log_data_with_timestamp(vec![b'A'], 1).unwrap();
    entry.log_data_with_timestamp(vec![b'B'], 2).unwrap();
    entry.log_data_with_timestamp(vec![b'C'], 3).unwrap();
    writer.join().unwrap();
    let records = parse_records(drain(&receiver));
    let payloads: Vec<Vec<u8>> = records
        .iter()
        .filter_map(|r| match &r.info {
            RecordInfo::Data(d) if r.id == 1 => Some(d.clone()),
            _ => None,
        })
        .collect();
    assert_eq!(payloads, vec![vec![b'A'], vec![b'B'], vec![b'C']]);
}

#[test]
fn lifecycle_start_then_finish() {
    let (mut writer, receiver) = WPILOGWriter::new(FixedTime(5));
    let entry = writer.make_entry("X".into(), "int64".into(), String::new()).unwrap();
    entry.finish();
    writer.join().unwrap();
    let records = parse_records(drain(&receiver));
    assert_eq!(records.len(), 2);
    assert_eq!(records[0].id, 1);
    match &records[0].info {
        RecordInfo::Control(ControlData::Start { name, entry_type, metadata }) => {
            assert_eq!(name, "X");
            assert_eq!(entry_type, "int64");
            assert_eq!(metadata, "");
        }
        other => panic!("expected a Start control record, got {:?}", other),
    }
    assert_eq!(records[1].id, 1);
    assert!(matches!(records[1].info, RecordInfo::Control(ControlData::Finish)));
}

#[test]
fn post_close_logging_fails_and_writes_nothing() {
    let (mut writer, receiver) = WPILOGWriter::new(FixedTime(0));
    let entry = writer.make_entry("e".into(), "raw".into(), String::new()).unwrap();
    writer.join().unwrap();
    let records = parse_records(drain(&receiver));
    drop(receiver);
    assert_eq!(entry.log_data(vec![1, 2, 3]).unwrap_err(), LogError::PipelineClosed);
    // only the Start record made it out; the late log produced no output
    assert_eq!(records.len(), 1);
    assert!(matches!(records[0].info, RecordInfo::Control(ControlData::Start { .. })));
}

#[test]
fn set_metadata_emits_control_record() {
    let (mut writer, receiver) = WPILOGWriter::new(FixedTime(0));
    let entry = writer.make_entry("e".into(), "raw".into(), "{}".into()).unwrap();
    entry.set_metadata("{\"unit\":\"m\"}".to_string()).unwrap();
    writer.join().unwrap();
    let records = parse_records(drain(&receiver));
    assert_eq!(records.len(), 2);
    assert_eq!(records[1].id, 1);
    match &records[1].info {
        RecordInfo::Control(ControlData::SetMetadata(metadata)) => {
            assert_eq!(metadata, "{\"unit\":\"m\"}");
        }
        other => panic!("expected a SetMetadata control record, got {:?}", other),
    }
}

fn data_payloads(records: &[Record], id: u32) -> Vec<Vec<u8>> {
    records
        .iter()
        .filter_map(|r| match &r.info {
            RecordInfo::Data(d) if r.id == id => Some(d.clone()),
            _ => None,
        })
        .collect()
}

fn start_type(records: &[Record], id: u32) -> String {
    records
        .iter()
        .find_map(|r| match &r.info {
            RecordInfo::Control(ControlData::Start { entry_type, .. }) if r.id == id => {
                Some(entry_type.clone())
            }
            _ => None,
        })
        .expect("entry should have a Start record")
}

#[test]
fn typed_entries_encode_fixed_payloads() {
    let (mut writer, receiver) = WPILOGWriter::new(FixedTime(9));
    let booleans = writer.new_bool_entry("b".into(), None).unwrap();
    let ints = writer.new_i64_entry("i".into(), None).unwrap();
    let strings = writer.new_string_entry("s".into(), None).unwrap();
    let bytes = writer.new_bytes_entry("r".into(), None).unwrap();
    booleans.update_with_timestamp(true, 1).unwrap();
    booleans.update_with_timestamp(false, 2).unwrap();
    ints.update_with_timestamp(-2, 1).unwrap();
    strings.update_with_timestamp("Hello".to_string(), 1).unwrap();
    bytes.update_with_timestamp(vec![9, 8, 7], 1).unwrap();
    writer.join().unwrap();
    let records = parse_records(drain(&receiver));
    assert_eq!(start_type(&records, 1), "boolean");
    assert_eq!(start_type(&records, 2), "int64");
    assert_eq!(start_type(&records, 3), "string");
    assert_eq!(start_type(&records, 4), "raw");
    assert_eq!(data_payloads(&records, 1), vec![vec![1], vec![0]]);
    assert_eq!(
        data_payloads(&records, 2),
        vec![vec![0xFE, 0xFF, 0xFF, 0xFF, 0xFF, 0xFF, 0xFF, 0xFF]]
    );
    assert_eq!(data_payloads(&records, 3), vec![b"Hello".to_vec()]);
    assert_eq!(data_payloads(&records, 4), vec![vec![9, 8, 7]]);
}

#[test]
fn typed_array_entries_encode_fixed_payloads() {
    let (mut writer, receiver) = WPILOGWriter::new(FixedTime(9));
    let booleans = writer.new_bool_array_entry("ba".into(), None).unwrap();
    let ints = writer.new_i64_array_entry("ia".into(), None).unwrap();
    let strings = writer.new_string_array_entry("sa".into(), None).unwrap();
    booleans.update_with_timestamp(vec![false, true, true], 1).unwrap();
    ints.update_with_timestamp(vec![1, -1], 1).unwrap();
    strings
        .update_with_timestamp(vec!["Hi".to_string(), "".to_string()], 1)
        .unwrap();
    writer.join().unwrap();
    let records = parse_records(drain(&receiver));
    assert_eq!(start_type(&records, 1), "boolean[]");
    assert_eq!(start_type(&records, 2), "int64[]");
    assert_eq!(start_type(&records, 3), "string[]");
    assert_eq!(data_payloads(&records, 1), vec![vec![0, 1, 1]]);
    let mut int_expected = vec![1, 0, 0, 0, 0, 0, 0, 0];
    int_expected.extend_from_slice(&[0xFF; 8]);
    assert_eq!(data_payloads(&records, 2), vec![int_expected]);
    let mut string_expected = vec![2, 0, 0, 0];
    string_expected.extend_from_slice(&[2, 0, 0, 0, b'H', b'i']);
    string_expected.extend_from_slice(&[0, 0, 0, 0]);
    assert_eq!(data_payloads(&records, 3), vec![string_expected]);
}

#[test]
fn entry_metadata_defaults_and_is_kept() {
    let (mut writer, receiver) = WPILOGWriter::new(FixedTime(0));
    let _with = writer.new_bool_entry("a".into(), Some("{\"m\":2}".to_string())).unwrap();
    let _without = writer.new_bool_entry("b".into(), None).unwrap();
    writer.join().unwrap();
    let records = parse_records(drain(&receiver));
    match &records[0].info {
        RecordInfo::Control(ControlData::Start { metadata, .. }) => {
            assert_eq!(metadata, "{\"m\":2}");
        }
        other => panic!("expected a Start control record, got {:?}", other),
    }
    match &records[1].info {
        RecordInfo::Control(ControlData::Start { metadata, .. }) => assert_eq!(metadata, ""),
        other => panic!("expected a Start control record, got {:?}", other),
    }
}

#[test]
fn typed_entry_finish_emits_finish_record() {
    let (mut writer, receiver) = WPILOGWriter::new(FixedTime(0));
    let entry = writer.new_bool_entry("b".into(), None).unwrap();
    entry.finish();
    writer.join().unwrap();
    let records = parse_records(drain(&receiver));
    assert_eq!(records.len(), 2);
    assert!(matches!(records[1].info, RecordInfo::Control(ControlData::Finish)));
    assert_eq!(records[1].id, 1);
}

#[test]
fn stream_from_pipeline_starts_with_header() {
    let (writer, receiver) = WPILOGWriter::new(FixedTime(0));
    writer.join().unwrap();
    let bytes = drain(&receiver);
    assert_eq!(&bytes[0..6], b"WPILOG");
    assert_eq!(&bytes[6..8], &[0x00, 0x01]);
    assert_eq!(&bytes[8..12], &[0, 0, 0, 0]);
    assert_eq!(bytes.len(), 12);
}
