//! Streaming reader: header validation, then frames one by one.
//!
//! The reader walks an in-memory byte source.  A bad header makes the whole
//! source unreadable; a truncated trailing frame only ends the stream early,
//! on purpose, so that a partially written log still yields every complete
//! leading frame.

use vstd::prelude::*;
use vstd::slice::{slice_subrange, slice_to_vec};
use vstd::utf8::{decode_utf8, valid_utf8};

use crate::codec::{
    spec_decode_frame, spec_interpret, spec_magic, spec_parse_lp, spec_version_bytes,
    RawFrameModel,
};
use crate::varint::{le_val, le_val_exec, lemma_le_val_bound, lemma_pow256_mono,
    lemma_pow256_values};
use crate::{ControlData, LogError, Record, RecordInfo, RecordModel};

use core::str;

verus! {

/// A frame as first sliced from the stream: wire id, timestamp and raw
/// payload, before any control-payload parsing.
#[derive(Clone, Debug, PartialEq)]
pub struct PlainRecord {
    pub id: u32,
    pub timestamp: u64,
    pub data: Vec<u8>,
}

impl View for PlainRecord {
    type V = RawFrameModel;

    open spec fn view(&self) -> RawFrameModel {
        RawFrameModel { id: self.id, timestamp: self.timestamp, data: self.data@ }
    }
}

/// Parses the fixed file header: magic, version, then the length-prefixed
/// extra-header blob.  Returns the blob and the offset of the first frame.
pub open spec fn spec_parse_header(s: Seq<u8>) -> Result<(Seq<u8>, int), LogError> {
    if s.len() < 6 {
        Err(LogError::TruncatedInput)
    } else if s.subrange(0, 6) != spec_magic() {
        Err(LogError::InvalidHeader)
    } else if s.len() < 8 {
        Err(LogError::TruncatedInput)
    } else if s.subrange(6, 8) != spec_version_bytes() {
        Err(LogError::UnsupportedVersion)
    } else if s.len() < 12 {
        Err(LogError::TruncatedInput)
    } else {
        let l = le_val(s.subrange(8, 12)) as int;
        if s.len() < 12 + l {
            Err(LogError::TruncatedInput)
        } else {
            Ok((s.subrange(12, 12 + l), 12 + l))
        }
    }
}

/// Forward-only reader over one in-memory byte source.
#[derive(Debug)]
pub struct WPILOGReader {
    /// The whole byte source, header included.
    pub data: Vec<u8>,
    /// Read cursor; always past the header.
    pub pos: usize,
    /// The opaque extra-header blob the header carried.
    pub extra_header: Vec<u8>,
}

impl WPILOGReader {
    pub open spec fn wf(self) -> bool {
        self.pos <= self.data@.len()
    }

    /// The bytes not yet consumed.
    pub open spec fn remaining(self) -> Seq<u8> {
        self.data@.subrange(self.pos as int, self.data@.len() as int)
    }

    /// Validates the header of `data` and positions a reader at the first
    /// frame.  Fails with `InvalidHeader` on a wrong magic string,
    /// `UnsupportedVersion` on a wrong version word, and `TruncatedInput`
    /// when the source ends inside the header.
    pub fn new_raw(data: Vec<u8>) -> (r: Result<WPILOGReader, LogError>)
        ensures
            match r {
                Ok(rd) => {
                    &&& spec_parse_header(data@) == Ok::<(Seq<u8>, int), LogError>(
                        (rd.extra_header@, rd.pos as int),
                    )
                    &&& rd.data@ == data@
                    &&& rd.wf()
                },
                Err(e) => spec_parse_header(data@) == Err::<(Seq<u8>, int), LogError>(e),
            },
    {
        if data.len() < 6 {
            return Err(LogError::TruncatedInput);
        }
        let magic_ok = data[0] == 0x57 && data[1] == 0x50 && data[2] == 0x49 && data[3] == 0x4c
            && data[4] == 0x4f && data[5] == 0x47;
        proof {
            let m = data@.subrange(0, 6);
            assert(m[0] == data@[0] && m[1] == data@[1] && m[2] == data@[2] && m[3] == data@[3]
                && m[4] == data@[4] && m[5] == data@[5]);
            if magic_ok {
                assert(m =~= spec_magic());
            }
        }
        if !magic_ok {
            return Err(LogError::InvalidHeader);
        }
        if data.len() < 8 {
            return Err(LogError::TruncatedInput);
        }
        let version_ok = data[6] == 0x00 && data[7] == 0x01;
        proof {
            let v = data@.subrange(6, 8);
            assert(v[0] == data@[6] && v[1] == data@[7]);
            if version_ok {
                assert(v =~= spec_version_bytes());
            }
        }
        if !version_ok {
            return Err(LogError::UnsupportedVersion);
        }
        if data.len() < 12 {
            return Err(LogError::TruncatedInput);
        }
        let l64 = le_val_exec(slice_subrange(data.as_slice(), 8, 12));
        proof {
            lemma_le_val_bound(data@.subrange(8, 12));
            lemma_pow256_values();
        }
        let l = l64 as usize;
        if data.len() - 12 < l {
            return Err(LogError::TruncatedInput);
        }
        let extra = slice_to_vec(slice_subrange(data.as_slice(), 12, 12 + l));
        Ok(WPILOGReader { pos: 12 + l, data, extra_header: extra })
    }

    /// Reads `length` little-endian bytes from the cursor as one integer,
    /// advancing past them; fails with `TruncatedInput`, moving nothing,
    /// when fewer than `length` bytes remain.
    pub fn read_variable_int(&mut self, length: usize) -> (r: Result<u64, LogError>)
        requires
            old(self).wf(),
            length <= 8,
        ensures
            final(self).wf(),
            final(self).data@ == old(self).data@,
            final(self).extra_header@ == old(self).extra_header@,
            old(self).remaining().len() >= length ==> {
                &&& r matches Ok(v) && v as nat == le_val(
                    old(self).remaining().subrange(0, length as int),
                )
                &&& final(self).pos == old(self).pos + length
            },
            old(self).remaining().len() < length ==> r == Err::<u64, LogError>(
                LogError::TruncatedInput,
            ) && final(self).pos == old(self).pos,
    {
        if self.data.len() - self.pos < length {
            return Err(LogError::TruncatedInput);
        }
        let s = slice_subrange(self.data.as_slice(), self.pos, self.pos + length);
        let v = le_val_exec(s);
        proof {
            assert(old(self).remaining().subrange(0, length as int) =~= old(self).data@.subrange(
                old(self).pos as int,
                old(self).pos + length,
            ));
        }
        self.pos = self.pos + length;
        Ok(v)
    }

    /// [`WPILOGReader::read_variable_int`] with the failure folded to `None`.
    pub fn read_variable_int_option(&mut self, length: usize) -> (r: Option<u64>)
        requires
            old(self).wf(),
            length <= 8,
        ensures
            final(self).wf(),
            final(self).data@ == old(self).data@,
            final(self).extra_header@ == old(self).extra_header@,
            old(self).remaining().len() >= length ==> {
                &&& r matches Some(v) && v as nat == le_val(
                    old(self).remaining().subrange(0, length as int),
                )
                &&& final(self).pos == old(self).pos + length
            },
            old(self).remaining().len() < length ==> r is None && final(self).pos == old(
                self,
            ).pos,
    {
        match self.read_variable_int(length) {
            Ok(value) => Some(value),
            Err(_err) => None,
        }
    }

    /// Slices the next frame from the source, or ends the stream with
    /// `None` when no complete frame remains — a truncated tail included.
    pub fn next(&mut self) -> (r: Option<PlainRecord>)
        requires
            old(self).wf(),
        ensures
            final(self).wf(),
            final(self).data@ == old(self).data@,
            final(self).extra_header@ == old(self).extra_header@,
            match spec_decode_frame(old(self).remaining()) {
                Some((f, c)) => r matches Some(pr) && pr@ == f && final(self).pos == old(self).pos
                    + c,
                None => r is None && final(self).pos == old(self).pos,
            },
    {
        let ghost rem = old(self).remaining();
        let len = self.data.len();
        if len - self.pos < 1 {
            return None;
        }
        let bitfield: u8 = self.data[self.pos];
        proof {
            assert(rem[0] == bitfield);
        }
        let entry_length: usize = (bitfield as usize) % 4 + 1;
        let size_length: usize = ((bitfield as usize) / 4) % 4 + 1;
        let timestamp_length: usize = ((bitfield as usize) / 16) % 8 + 1;
        let fields_end: usize = 1 + entry_length + size_length + timestamp_length;
        if len - self.pos < fields_end {
            return None;
        }
        let base = self.pos;
        let id_slice = slice_subrange(self.data.as_slice(), base + 1, base + 1 + entry_length);
        let entry64 = le_val_exec(id_slice);
        proof {
            assert(id_slice@ =~= rem.subrange(1, 1 + entry_length as int));
            lemma_le_val_bound(id_slice@);
            lemma_pow256_mono(id_slice@.len(), 4);
            lemma_pow256_values();
        }
        let entry = entry64 as u32;
        let size_slice = slice_subrange(
            self.data.as_slice(),
            base + 1 + entry_length,
            base + 1 + entry_length + size_length,
        );
        let size64 = le_val_exec(size_slice);
        proof {
            assert(size_slice@ =~= rem.subrange(
                1 + entry_length as int,
                1 + entry_length as int + size_length as int,
            ));
            lemma_le_val_bound(size_slice@);
            lemma_pow256_mono(size_slice@.len(), 4);
            lemma_pow256_values();
        }
        let size = size64 as usize;
        let ts_slice = slice_subrange(
            self.data.as_slice(),
            base + 1 + entry_length + size_length,
            base + fields_end,
        );
        let timestamp = le_val_exec(ts_slice);
        proof {
            assert(ts_slice@ =~= rem.subrange(
                1 + entry_length as int + size_length as int,
                fields_end as int,
            ));
        }
        if len - (base + fields_end) < size {
            return None;
        }
        let data_vec = slice_to_vec(
            slice_subrange(self.data.as_slice(), base + fields_end, base + fields_end + size),
        );
        proof {
            assert(data_vec@ =~= rem.subrange(fields_end as int, fields_end as int + size as int));
        }
        self.pos = base + fields_end + size;
        Some(PlainRecord { id: entry, timestamp, data: data_vec })
    }
}

/// Relies on `core::str::from_utf8`: it accepts exactly the valid UTF-8
/// byte runs, and decodes them to the characters those bytes encode.
#[verifier::external_body]
fn bytes_to_string(v: &[u8]) -> (r: Option<String>)
    ensures
        match r {
            Some(s) => valid_utf8(v@) && s@ == decode_utf8(v@),
            None => !valid_utf8(v@),
        },
{
    match str::from_utf8(v) {
        Ok(s) => Some(s.to_string()),
        Err(_) => None,
    }
}

/// Parses one length-prefixed string field of a control payload at `pos`.
fn parse_lp(p: &Vec<u8>, pos: usize) -> (r: Result<(String, usize), LogError>)
    requires
        pos <= p@.len(),
    ensures
        match r {
            Ok(s_end) => spec_parse_lp(p@, pos as int) == Ok::<(Seq<char>, int), LogError>(
                (s_end.0@, s_end.1 as int),
            ) && pos <= s_end.1 <= p@.len(),
            Err(e) => spec_parse_lp(p@, pos as int) == Err::<(Seq<char>, int), LogError>(e),
        },
{
    if p.len() - pos < 4 {
        return Err(LogError::TruncatedPayload);
    }
    let n_slice = slice_subrange(p.as_slice(), pos, pos + 4);
    let n64 = le_val_exec(n_slice);
    proof {
        assert(n_slice@ =~= p@.subrange(pos as int, pos as int + 4));
        lemma_le_val_bound(n_slice@);
        lemma_pow256_values();
    }
    let n = n64 as usize;
    if p.len() - (pos + 4) < n {
        return Err(LogError::TruncatedPayload);
    }
    let bytes = slice_subrange(p.as_slice(), pos + 4, pos + 4 + n);
    proof {
        assert(bytes@ =~= p@.subrange(pos as int + 4, pos as int + 4 + n as int));
    }
    match bytes_to_string(bytes) {
        Some(s) => Ok((s, pos + 4 + n)),
        None => Err(LogError::InvalidUtf8),
    }
}

impl Record {
    /// Interprets a raw frame as a structured record: a data record as-is
    /// for a non-zero wire id, a parsed control record for wire id 0.
    /// Fails with `TruncatedPayload` when the control payload ends before
    /// its declared contents, `InvalidUtf8` when a string field holds
    /// invalid UTF-8, and `MalformedControl` on an unknown tag byte.
    pub fn try_from(record: PlainRecord) -> (r: Result<Record, LogError>)
        ensures
            match r {
                Ok(rec) => spec_interpret(record@) == Ok::<RecordModel, LogError>(rec@),
                Err(e) => spec_interpret(record@) == Err::<RecordModel, LogError>(e),
            },
    {
        if record.id == 0 {
            if record.data.len() == 0 {
                return Err(LogError::TruncatedPayload);
            }
            let rtype = record.data[0];
            if record.data.len() < 5 {
                return Err(LogError::TruncatedPayload);
            }
            let id_slice = slice_subrange(record.data.as_slice(), 1, 5);
            let id64 = le_val_exec(id_slice);
            proof {
                assert(id_slice@ =~= record.data@.subrange(1, 5));
                lemma_le_val_bound(id_slice@);
                lemma_pow256_values();
            }
            let id = id64 as u32;
            if rtype == 0 {
                let name_end = match parse_lp(&record.data, 5) {
                    Ok(v) => v,
                    Err(e) => {
                        return Err(e);
                    },
                };
                let type_end = match parse_lp(&record.data, name_end.1) {
                    Ok(v) => v,
                    Err(e) => {
                        return Err(e);
                    },
                };
                let meta_end = match parse_lp(&record.data, type_end.1) {
                    Ok(v) => v,
                    Err(e) => {
                        return Err(e);
                    },
                };
                Ok(
                    Record {
                        id,
                        timestamp: record.timestamp,
                        info: RecordInfo::Control(
                            ControlData::Start {
                                name: name_end.0,
                                entry_type: type_end.0,
                                metadata: meta_end.0,
                            },
                        ),
                    },
                )
            } else if rtype == 1 {
                Ok(
                    Record {
                        id,
                        timestamp: record.timestamp,
                        info: RecordInfo::Control(ControlData::Finish),
                    },
                )
            } else if rtype == 2 {
                let meta_end = match parse_lp(&record.data, 5) {
                    Ok(v) => v,
                    Err(e) => {
                        return Err(e);
                    },
                };
                Ok(
                    Record {
                        id,
                        timestamp: record.timestamp,
                        info: RecordInfo::Control(ControlData::SetMetadata(meta_end.0)),
                    },
                )
            } else {
                Err(LogError::MalformedControl)
            }
        } else {
            Ok(
                Record {
                    id: record.id,
                    timestamp: record.timestamp,
                    info: RecordInfo::Data(record.data),
                },
            )
        }
    }
}

} // verus!
