//! A codec and writer/reader pipeline for a compact binary telemetry log.
//!
//! A log file starts with a fixed header (magic string, version, opaque extra
//! header) and continues as a run of frames.  Each frame carries one record:
//! either a data record, an opaque payload for a named entry, or a control
//! record (wire id 0) that starts an entry, finishes it, or updates its
//! metadata.  The codec here is verified byte-for-byte; the writer serializes
//! records from many entry handles through one FIFO channel to a single
//! consumer, and the reader walks a byte source frame by frame, dropping a
//! truncated tail silently.

use vstd::prelude::*;

pub mod channel;
pub mod codec;
pub mod entrytypes;
pub mod reader;
pub mod varint;
pub mod writer;

verus! {

/// Everything that can go wrong while encoding, decoding or logging.
#[derive(Clone, Copy, Debug, PartialEq, Eq, Structural)]
pub enum LogError {
    /// The byte source does not begin with the magic string.
    InvalidHeader,
    /// The magic string is right but the version word is not.
    UnsupportedVersion,
    /// The byte source ran out in the middle of a header or frame field.
    TruncatedInput,
    /// A control payload ended before its declared contents.
    TruncatedPayload,
    /// A string field of a control payload is not valid UTF-8.
    InvalidUtf8,
    /// A control payload's leading tag byte is not a known kind.
    MalformedControl,
    /// A logging call was issued after the pipeline shut down.
    PipelineClosed,
    /// The consumer failed to write to its sink; fatal to the pipeline.
    SinkWriteFailure,
}

/// One logical log event.
#[derive(Clone, Debug, PartialEq)]
pub struct Record {
    /// Entry id for a data record; the *target* entry id for a control
    /// record (whose wire id is always 0).
    pub id: u32,
    /// Microseconds, from the pipeline's time source.
    pub timestamp: u64,
    pub info: RecordInfo,
}

#[derive(Clone, Debug, PartialEq)]
pub enum RecordInfo {
    Control(ControlData),
    Data(Vec<u8>),
}

#[derive(Clone, Debug, PartialEq)]
pub enum ControlData {
    /// Declares the target id as a live entry with a name, a logical type
    /// name and free-form metadata.
    Start { name: String, entry_type: String, metadata: String },
    /// Retires the target id.
    Finish,
    /// Replaces the target id's metadata.
    SetMetadata(String),
}

/// Mathematical shape of a [`Record`]: strings as character sequences,
/// payloads as byte sequences.
pub ghost struct RecordModel {
    pub id: u32,
    pub timestamp: u64,
    pub info: RecordInfoModel,
}

pub ghost enum RecordInfoModel {
    Control(ControlDataModel),
    Data(Seq<u8>),
}

pub ghost enum ControlDataModel {
    Start { name: Seq<char>, entry_type: Seq<char>, metadata: Seq<char> },
    Finish,
    SetMetadata(Seq<char>),
}

impl View for ControlData {
    type V = ControlDataModel;

    open spec fn view(&self) -> ControlDataModel {
        match self {
            ControlData::Start { name, entry_type, metadata } => ControlDataModel::Start {
                name: name@,
                entry_type: entry_type@,
                metadata: metadata@,
            },
            ControlData::Finish => ControlDataModel::Finish,
            ControlData::SetMetadata(metadata) => ControlDataModel::SetMetadata(metadata@),
        }
    }
}

impl View for RecordInfo {
    type V = RecordInfoModel;

    open spec fn view(&self) -> RecordInfoModel {
        match self {
            RecordInfo::Control(c) => RecordInfoModel::Control(c@),
            RecordInfo::Data(d) => RecordInfoModel::Data(d@),
        }
    }
}

impl View for Record {
    type V = RecordModel;

    open spec fn view(&self) -> RecordModel {
        RecordModel { id: self.id, timestamp: self.timestamp, info: self.info@ }
    }
}

} // verus!
