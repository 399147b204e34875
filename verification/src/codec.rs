//! Frame layout: what one record looks like on the wire.
//!
//! A frame is one leading control byte giving the lengths of three
//! little-endian fields (entry id, payload size, timestamp), the fields
//! themselves, then the payload.  A control record travels with wire id 0 and
//! a structured payload: a tag byte, a four-byte target entry id, and
//! length-prefixed UTF-8 strings as the tag demands.

use vstd::prelude::*;
use vstd::arithmetic::div_mod::{
    lemma_div_denominator, lemma_fundamental_div_mod_converse, lemma_small_mod,
};
use vstd::utf8::{
    decode_utf8, encode_utf8, encode_utf8_decode_utf8, encode_utf8_valid_utf8, valid_utf8,
};

use crate::varint::{
    encode_int, le_bytes, le_bytes_exec, le_val, lemma_le_bytes_len, lemma_le_val_bound,
    lemma_le_val_of_le_bytes, lemma_pow256_values, lemma_varint_round_trip, varint, varint_len,
};
use crate::{ControlData, ControlDataModel, LogError, Record, RecordInfo, RecordInfoModel,
    RecordModel};

verus! {

/// The magic string "WPILOG" that opens every log.
pub open spec fn spec_magic() -> Seq<u8> {
    seq![0x57u8, 0x50u8, 0x49u8, 0x4cu8, 0x4fu8, 0x47u8]
}

/// The supported format version, 0x0100, little-endian on the wire.
pub open spec fn spec_version_bytes() -> Seq<u8> {
    seq![0x00u8, 0x01u8]
}

/// The full file header: magic, version, then a length-prefixed opaque
/// extra-header blob.
pub open spec fn spec_header(extra: Seq<u8>) -> Seq<u8> {
    spec_magic() + spec_version_bytes() + le_bytes(extra.len(), 4) + extra
}

/// A length-prefixed string field: four little-endian bytes of UTF-8 byte
/// count, then the UTF-8 bytes themselves.
pub open spec fn lp_string(s: Seq<char>) -> Seq<u8> {
    le_bytes(encode_utf8(s).len(), 4) + encode_utf8(s)
}

/// The structured payload a control record carries: tag byte, four-byte
/// target entry id, then the tag's own fields.
pub open spec fn spec_control_payload(c: ControlDataModel, target: u32) -> Seq<u8> {
    match c {
        ControlDataModel::Start { name, entry_type, metadata } => seq![0u8] + le_bytes(
            target as nat,
            4,
        ) + lp_string(name) + lp_string(entry_type) + lp_string(metadata),
        ControlDataModel::Finish => seq![1u8] + le_bytes(target as nat, 4),
        ControlDataModel::SetMetadata(metadata) => seq![2u8] + le_bytes(target as nat, 4)
            + lp_string(metadata),
    }
}

/// The control byte: bits 0-1 hold `id_len - 1`, bits 2-3 `size_len - 1`,
/// bits 4-6 `ts_len - 1`.
pub open spec fn ctrl_byte(id_len: nat, size_len: nat, ts_len: nat) -> u8
    recommends
        1 <= id_len <= 4,
        1 <= size_len <= 4,
        1 <= ts_len <= 8,
{
    ((id_len - 1) + 4 * (size_len - 1) + 16 * (ts_len - 1)) as u8
}

/// One whole frame, given the already-encoded id field.
pub open spec fn spec_frame(id_bytes: Seq<u8>, size: u64, ts: u64, payload: Seq<u8>) -> Seq<u8> {
    seq![ctrl_byte(id_bytes.len(), varint_len(size), varint_len(ts))] + id_bytes + varint(size)
        + varint(ts) + payload
}

/// What fits on the wire.  A data record needs a non-zero id (id 0 marks a
/// control record) and a payload size that its at-most-four size bytes can
/// carry; a control record needs its payload, tag and strings included, to
/// stay under the same four-byte size bound.
pub open spec fn control_wf(c: ControlDataModel) -> bool {
    match c {
        ControlDataModel::Start { name, entry_type, metadata } => encode_utf8(name).len()
            + encode_utf8(entry_type).len() + encode_utf8(metadata).len() + 17 < 0x1_0000_0000,
        ControlDataModel::Finish => true,
        ControlDataModel::SetMetadata(metadata) => encode_utf8(metadata).len() + 9
            < 0x1_0000_0000,
    }
}

pub open spec fn record_wf(r: RecordModel) -> bool {
    match r.info {
        RecordInfoModel::Data(d) => r.id != 0 && d.len() < 0x1_0000_0000,
        RecordInfoModel::Control(c) => control_wf(c),
    }
}

/// The encoding of a whole record.  A data record's id field is the minimal
/// varint of its id; a control record's id field is the single byte 0.
pub open spec fn spec_encode_record(r: RecordModel) -> Seq<u8> {
    match r.info {
        RecordInfoModel::Data(d) => spec_frame(
            varint(r.id as u64),
            d.len() as u64,
            r.timestamp,
            d,
        ),
        RecordInfoModel::Control(c) => spec_frame(
            seq![0u8],
            spec_control_payload(c, r.id).len() as u64,
            r.timestamp,
            spec_control_payload(c, r.id),
        ),
    }
}

/// A frame as first sliced from the stream, before its payload is
/// interpreted.
pub ghost struct RawFrameModel {
    pub id: u32,
    pub timestamp: u64,
    pub data: Seq<u8>,
}

/// Decodes the first frame of `s`: the frame and how many bytes it took, or
/// `None` when `s` holds no complete frame.
pub open spec fn spec_decode_frame(s: Seq<u8>) -> Option<(RawFrameModel, int)> {
    if s.len() < 1 {
        None
    } else {
        let id_len = (s[0] as int) % 4 + 1;
        let size_len = ((s[0] as int) / 4) % 4 + 1;
        let ts_len = ((s[0] as int) / 16) % 8 + 1;
        let fields_end = 1 + id_len + size_len + ts_len;
        if s.len() < fields_end {
            None
        } else {
            let id = le_val(s.subrange(1, 1 + id_len));
            let size = le_val(s.subrange(1 + id_len, 1 + id_len + size_len));
            let ts = le_val(s.subrange(1 + id_len + size_len, fields_end));
            if s.len() < fields_end + size {
                None
            } else {
                Some(
                    (
                        RawFrameModel {
                            id: id as u32,
                            timestamp: ts as u64,
                            data: s.subrange(fields_end, fields_end + size),
                        },
                        fields_end + size,
                    ),
                )
            }
        }
    }
}

/// Parses one length-prefixed string field of a control payload, returning
/// the characters and the offset just past the field.
pub open spec fn spec_parse_lp(p: Seq<u8>, pos: int) -> Result<(Seq<char>, int), LogError> {
    if p.len() < pos + 4 {
        Err(LogError::TruncatedPayload)
    } else {
        let n = le_val(p.subrange(pos, pos + 4)) as int;
        if p.len() < pos + 4 + n {
            Err(LogError::TruncatedPayload)
        } else if !valid_utf8(p.subrange(pos + 4, pos + 4 + n)) {
            Err(LogError::InvalidUtf8)
        } else {
            Ok((decode_utf8(p.subrange(pos + 4, pos + 4 + n)), pos + 4 + n))
        }
    }
}

/// Turns a raw frame into a structured record.  A non-zero wire id makes a
/// data record as-is; wire id 0 makes the payload parse as a control record,
/// whose target id the record's own id field then carries.
pub open spec fn spec_interpret(f: RawFrameModel) -> Result<RecordModel, LogError> {
    if f.id != 0 {
        Ok(RecordModel { id: f.id, timestamp: f.timestamp, info: RecordInfoModel::Data(f.data) })
    } else if f.data.len() < 1 {
        Err(LogError::TruncatedPayload)
    } else if f.data.len() < 5 {
        Err(LogError::TruncatedPayload)
    } else {
        let tag = f.data[0];
        let target = le_val(f.data.subrange(1, 5)) as u32;
        if tag == 0 {
            match spec_parse_lp(f.data, 5) {
                Err(e) => Err(e),
                Ok((name, p1)) => match spec_parse_lp(f.data, p1) {
                    Err(e) => Err(e),
                    Ok((entry_type, p2)) => match spec_parse_lp(f.data, p2) {
                        Err(e) => Err(e),
                        Ok((metadata, _p3)) => Ok(
                            RecordModel {
                                id: target,
                                timestamp: f.timestamp,
                                info: RecordInfoModel::Control(
                                    ControlDataModel::Start { name, entry_type, metadata },
                                ),
                            },
                        ),
                    },
                },
            }
        } else if tag == 1 {
            Ok(
                RecordModel {
                    id: target,
                    timestamp: f.timestamp,
                    info: RecordInfoModel::Control(ControlDataModel::Finish),
                },
            )
        } else if tag == 2 {
            match spec_parse_lp(f.data, 5) {
                Err(e) => Err(e),
                Ok((metadata, _p1)) => Ok(
                    RecordModel {
                        id: target,
                        timestamp: f.timestamp,
                        info: RecordInfoModel::Control(ControlDataModel::SetMetadata(metadata)),
                    },
                ),
            }
        } else {
            Err(LogError::MalformedControl)
        }
    }
}

/// The raw frame that encoding a record puts on the wire.
pub open spec fn wire_frame_of(r: RecordModel) -> RawFrameModel {
    match r.info {
        RecordInfoModel::Data(d) => RawFrameModel { id: r.id, timestamp: r.timestamp, data: d },
        RecordInfoModel::Control(c) => RawFrameModel {
            id: 0,
            timestamp: r.timestamp,
            data: spec_control_payload(c, r.id),
        },
    }
}

pub proof fn lemma_ctrl_byte_fields(id_len: nat, size_len: nat, ts_len: nat)
    requires
        1 <= id_len <= 4,
        1 <= size_len <= 4,
        1 <= ts_len <= 8,
    ensures
        (ctrl_byte(id_len, size_len, ts_len) as int) % 4 + 1 == id_len,
        ((ctrl_byte(id_len, size_len, ts_len) as int) / 4) % 4 + 1 == size_len,
        ((ctrl_byte(id_len, size_len, ts_len) as int) / 16) % 8 + 1 == ts_len,
{
    let a = id_len - 1;
    let b = size_len - 1;
    let d = ts_len - 1;
    let c = a + 4 * b + 16 * d;
    assert(c <= 127);
    assert(ctrl_byte(id_len, size_len, ts_len) as int == c);
    lemma_fundamental_div_mod_converse(c as int, 4, b + 4 * d, a as int);
    lemma_fundamental_div_mod_converse(b as int + 4 * d, 4, d as int, b as int);
    lemma_div_denominator(c as int, 4, 4);
    assert((c as int) / 16 == ((c as int) / 4) / 4);
    lemma_small_mod(d as nat, 8);
}

/// Decoding a well-formed frame, with anything at all after it, yields
/// exactly its fields and consumes exactly its bytes.
pub proof fn lemma_decode_frame_of(id_bytes: Seq<u8>, size: u64, ts: u64, payload: Seq<u8>, rest: Seq<u8>)
    requires
        1 <= id_bytes.len() <= 4,
        size as nat == payload.len(),
        size < 0x1_0000_0000,
    ensures
        spec_decode_frame(spec_frame(id_bytes, size, ts, payload) + rest) == Some(
            (
                RawFrameModel {
                    id: le_val(id_bytes) as u32,
                    timestamp: ts,
                    data: payload,
                },
                spec_frame(id_bytes, size, ts, payload).len() as int,
            ),
        ),
        spec_frame(id_bytes, size, ts, payload).len() == 1 + id_bytes.len() + varint_len(size)
            + varint_len(ts) + payload.len(),
{
    let il = id_bytes.len();
    let sl = varint_len(size);
    let tl = varint_len(ts);
    lemma_varint_round_trip(size);
    lemma_varint_round_trip(ts);
    assert(sl <= 4);
    let frame = spec_frame(id_bytes, size, ts, payload);
    let s = frame + rest;
    let cb = ctrl_byte(il, sl, tl);
    assert(s[0] == cb);
    lemma_ctrl_byte_fields(il, sl, tl);
    let fields_end = 1 + il + sl + tl;
    assert(s.len() >= fields_end + size);
    assert(s.subrange(1, 1 + il as int) =~= id_bytes);
    assert(s.subrange(1 + il as int, 1 + il as int + sl as int) =~= varint(size));
    assert(s.subrange(1 + il as int + sl as int, fields_end as int) =~= varint(ts));
    assert(s.subrange(fields_end as int, fields_end as int + size as int) =~= payload);
    lemma_le_val_bound(id_bytes);
    lemma_pow256_values();
    crate::varint::lemma_pow256_mono(il, 4);
    assert(le_val(id_bytes) < 0x1_0000_0000);
}

pub proof fn lemma_control_payload_len(c: ControlDataModel, target: u32)
    ensures
        spec_control_payload(c, target).len() == match c {
            ControlDataModel::Start { name, entry_type, metadata } => 17 + encode_utf8(name).len()
                + encode_utf8(entry_type).len() + encode_utf8(metadata).len(),
            ControlDataModel::Finish => 5,
            ControlDataModel::SetMetadata(metadata) => 9 + encode_utf8(metadata).len(),
        },
{
    lemma_le_bytes_len(target as nat, 4);
    match c {
        ControlDataModel::Start { name, entry_type, metadata } => {
            lemma_le_bytes_len(encode_utf8(name).len(), 4);
            lemma_le_bytes_len(encode_utf8(entry_type).len(), 4);
            lemma_le_bytes_len(encode_utf8(metadata).len(), 4);
        },
        ControlDataModel::Finish => {},
        ControlDataModel::SetMetadata(metadata) => {
            lemma_le_bytes_len(encode_utf8(metadata).len(), 4);
        },
    }
}

/// When the bytes of `p` from `pos` on start with the length-prefixed form
/// of `s`, parsing one string field at `pos` yields exactly `s`.
pub proof fn lemma_parse_lp_of_encoded(p: Seq<u8>, pos: int, s: Seq<char>)
    requires
        0 <= pos,
        pos + lp_string(s).len() <= p.len(),
        p.subrange(pos, pos + lp_string(s).len() as int) == lp_string(s),
        encode_utf8(s).len() < 0x1_0000_0000,
    ensures
        spec_parse_lp(p, pos) == Ok::<(Seq<char>, int), LogError>(
            (s, pos + 4 + encode_utf8(s).len()),
        ),
{
    let n = encode_utf8(s).len() as int;
    lemma_le_bytes_len(n as nat, 4);
    assert(lp_string(s).len() == 4 + n);
    assert(p.subrange(pos, pos + 4) =~= le_bytes(n as nat, 4)) by {
        assert(forall|i: int|
            0 <= i < 4 ==> #[trigger] p.subrange(pos, pos + 4)[i] == p.subrange(
                pos,
                pos + 4 + n,
            )[i]);
    }
    lemma_pow256_values();
    lemma_le_val_of_le_bytes(n as nat, 4);
    assert(le_val(p.subrange(pos, pos + 4)) == n);
    assert(p.subrange(pos + 4, pos + 4 + n) =~= encode_utf8(s)) by {
        assert(forall|i: int|
            0 <= i < n ==> #[trigger] p.subrange(pos + 4, pos + 4 + n)[i] == p.subrange(
                pos,
                pos + 4 + n,
            )[i + 4]);
    }
    encode_utf8_valid_utf8(s);
    encode_utf8_decode_utf8(s);
}

/// Interpreting the wire frame of a well-formed record gives the record
/// back.
pub proof fn lemma_interpret_wire_frame(r: RecordModel)
    requires
        record_wf(r),
    ensures
        spec_interpret(wire_frame_of(r)) == Ok::<RecordModel, LogError>(r),
{
    let f = wire_frame_of(r);
    match r.info {
        RecordInfoModel::Data(_) => {},
        RecordInfoModel::Control(c) => {
            let p = spec_control_payload(c, r.id);
            lemma_control_payload_len(c, r.id);
            lemma_le_bytes_len(r.id as nat, 4);
            lemma_pow256_values();
            lemma_le_val_of_le_bytes(r.id as nat, 4);
            assert(p.subrange(1, 5) =~= le_bytes(r.id as nat, 4));
            assert(le_val(p.subrange(1, 5)) == r.id);
            match c {
                ControlDataModel::Start { name, entry_type, metadata } => {
                    let n1 = encode_utf8(name).len() as int;
                    let n2 = encode_utf8(entry_type).len() as int;
                    let n3 = encode_utf8(metadata).len() as int;
                    lemma_le_bytes_len(n1 as nat, 4);
                    lemma_le_bytes_len(n2 as nat, 4);
                    lemma_le_bytes_len(n3 as nat, 4);
                    assert(p[0] == 0);
                    assert(p.subrange(5, 5 + 4 + n1) =~= lp_string(name));
                    lemma_parse_lp_of_encoded(p, 5, name);
                    let p1 = 9 + n1;
                    assert(p.subrange(p1, p1 + 4 + n2) =~= lp_string(entry_type));
                    lemma_parse_lp_of_encoded(p, p1, entry_type);
                    let p2 = p1 + 4 + n2;
                    assert(p.subrange(p2, p2 + 4 + n3) =~= lp_string(metadata));
                    lemma_parse_lp_of_encoded(p, p2, metadata);
                },
                ControlDataModel::Finish => {
                    assert(p[0] == 1);
                },
                ControlDataModel::SetMetadata(metadata) => {
                    let n1 = encode_utf8(metadata).len() as int;
                    lemma_le_bytes_len(n1 as nat, 4);
                    assert(p[0] == 2);
                    assert(p.subrange(5, 5 + 4 + n1) =~= lp_string(metadata));
                    lemma_parse_lp_of_encoded(p, 5, metadata);
                },
            }
        },
    }
}

/// Appends every byte of `src` to `dst`.
pub(crate) fn push_bytes(dst: &mut Vec<u8>, src: &[u8])
    ensures
        final(dst)@ == old(dst)@ + src@,
{
    let mut i: usize = 0;
    proof {
        assert(dst@ =~= dst@ + src@.subrange(0, 0));
    }
    while i < src.len()
        invariant
            i <= src@.len(),
            dst@ =~= old(dst)@ + src@.subrange(0, i as int),
        decreases src@.len() - i,
    {
        let b: u8 = src[i];
        dst.push(b);
        proof {
            assert(old(dst)@ + src@.subrange(0, i + 1) =~= (old(dst)@ + src@.subrange(
                0,
                i as int,
            )).push(b));
        }
        i = i + 1;
    }
    proof {
        assert(src@.subrange(0, src@.len() as int) =~= src@);
    }
}

/// Appends the length-prefixed form of `s`.
pub(crate) fn push_lp_string(dst: &mut Vec<u8>, s: &str)
    requires
        encode_utf8(s@).len() < 0x1_0000_0000,
    ensures
        final(dst)@ == old(dst)@ + lp_string(s@),
{
    let bytes = s.as_bytes();
    let n = bytes.len();
    let nb = le_bytes_exec(n as u64, 4);
    push_bytes(dst, nb.as_slice());
    push_bytes(dst, bytes);
    proof {
        assert(dst@ =~= old(dst)@ + lp_string(s@));
    }
}

/// Builds the structured payload of a control record aimed at `target`.
pub fn encode_control_payload(c: &ControlData, target: u32) -> (r: Vec<u8>)
    requires
        control_wf(c@),
    ensures
        r@ == spec_control_payload(c@, target),
{
    let mut p: Vec<u8> = Vec::new();
    match c {
        ControlData::Start { name, entry_type, metadata } => {
            p.push(0u8);
            let tb = le_bytes_exec(target as u64, 4);
            push_bytes(&mut p, tb.as_slice());
            proof {
                assert(p@ =~= seq![0u8] + le_bytes(target as nat, 4));
            }
            push_lp_string(&mut p, name.as_str());
            push_lp_string(&mut p, entry_type.as_str());
            push_lp_string(&mut p, metadata.as_str());
            proof {
                assert(p@ =~= spec_control_payload(c@, target));
            }
        },
        ControlData::Finish => {
            p.push(1u8);
            let tb = le_bytes_exec(target as u64, 4);
            push_bytes(&mut p, tb.as_slice());
            proof {
                assert(p@ =~= spec_control_payload(c@, target));
            }
        },
        ControlData::SetMetadata(metadata) => {
            p.push(2u8);
            let tb = le_bytes_exec(target as u64, 4);
            push_bytes(&mut p, tb.as_slice());
            proof {
                assert(p@ =~= seq![2u8] + le_bytes(target as nat, 4));
            }
            push_lp_string(&mut p, metadata.as_str());
            proof {
                assert(p@ =~= spec_control_payload(c@, target));
            }
        },
    }
    p
}

/// Assembles one frame from an already-encoded id field, the payload size,
/// the timestamp and the payload.
fn encode_frame(id_data: &Vec<u8>, size: u64, ts: u64, payload: &[u8]) -> (r: Vec<u8>)
    requires
        1 <= id_data@.len() <= 4,
        size as nat == payload@.len(),
        size < 0x1_0000_0000,
    ensures
        r@ == spec_frame(id_data@, size, ts, payload@),
{
    let size_data = encode_int(size);
    let ts_data = encode_int(ts);
    proof {
        lemma_varint_round_trip(size);
        lemma_varint_round_trip(ts);
    }
    let bitfield_wide: usize = (id_data.len() - 1) + 4 * (size_data.len() - 1) + 16 * (ts_data.len()
        - 1);
    let bitfield: u8 = bitfield_wide as u8;
    proof {
        assert(bitfield == ctrl_byte(id_data@.len(), varint_len(size), varint_len(ts)));
    }
    let mut r: Vec<u8> = Vec::new();
    r.push(bitfield);
    push_bytes(&mut r, id_data.as_slice());
    push_bytes(&mut r, size_data.as_slice());
    push_bytes(&mut r, ts_data.as_slice());
    push_bytes(&mut r, payload);
    proof {
        assert(r@ =~= spec_frame(id_data@, size, ts, payload@));
    }
    r
}

impl Record {
    /// Encodes this record into its on-wire frame.
    pub fn encode(&self) -> (r: Vec<u8>)
        requires
            record_wf(self@),
        ensures
            r@ == spec_encode_record(self@),
    {
        match &self.info {
            RecordInfo::Control(c) => {
                let payload = encode_control_payload(c, self.id);
                proof {
                    lemma_control_payload_len(c@, self.id);
                }
                let mut id_data: Vec<u8> = Vec::new();
                id_data.push(0u8);
                proof {
                    assert(id_data@ =~= seq![0u8]);
                }
                encode_frame(&id_data, payload.len() as u64, self.timestamp, payload.as_slice())
            },
            RecordInfo::Data(d) => {
                let id_data = encode_int(self.id as u64);
                proof {
                    lemma_varint_round_trip(self.id as u64);
                    lemma_pow256_values();
                }
                encode_frame(&id_data, d.len() as u64, self.timestamp, d.as_slice())
            },
        }
    }

    /// Encodes this record when it fits the wire format, and reports an
    /// oversized or malformed one instead of encoding it: a data record with
    /// id 0 or a payload of 2^32 bytes or more, or a control record whose
    /// strings push its payload to 2^32 bytes or more.
    pub fn encode_checked(&self) -> (r: Option<Vec<u8>>)
        ensures
            match r {
                Some(b) => record_wf(self@) && b@ == spec_encode_record(self@),
                None => !record_wf(self@),
            },
    {
        let ok: bool = match &self.info {
            RecordInfo::Data(d) => self.id != 0 && (d.len() as u64) < 0x1_0000_0000u64,
            RecordInfo::Control(c) => match c {
                ControlData::Start { name, entry_type, metadata } => {
                    let n1 = name.as_str().as_bytes().len() as u64;
                    let n2 = entry_type.as_str().as_bytes().len() as u64;
                    let n3 = metadata.as_str().as_bytes().len() as u64;
                    n1 < 0x1_0000_0000u64 && n2 < 0x1_0000_0000u64 && n3 < 0x1_0000_0000u64 && n1
                        + n2 + n3 + 17 < 0x1_0000_0000u64
                },
                ControlData::Finish => true,
                ControlData::SetMetadata(metadata) => {
                    let n = metadata.as_str().as_bytes().len() as u64;
                    n < 0x1_0000_0000u64 && n + 9 < 0x1_0000_0000u64
                },
            },
        };
        if ok {
            Some(self.encode())
        } else {
            None
        }
    }
}

/// Frame round trip: the encoding of any well-formed record, however it is
/// followed in the stream, decodes to one frame holding exactly its bytes,
/// and interpreting that frame gives the record back.
pub proof fn lemma_record_round_trip(r: RecordModel, rest: Seq<u8>)
    requires
        record_wf(r),
    ensures
        spec_decode_frame(spec_encode_record(r) + rest) == Some(
            (wire_frame_of(r), spec_encode_record(r).len() as int),
        ),
        spec_interpret(wire_frame_of(r)) == Ok::<RecordModel, LogError>(r),
{
    match r.info {
        RecordInfoModel::Data(d) => {
            lemma_varint_round_trip(r.id as u64);
            lemma_decode_frame_of(varint(r.id as u64), d.len() as u64, r.timestamp, d, rest);
        },
        RecordInfoModel::Control(c) => {
            let p = spec_control_payload(c, r.id);
            lemma_control_payload_len(c, r.id);
            lemma_decode_frame_of(seq![0u8], p.len() as u64, r.timestamp, p, rest);
            let z = seq![0u8];
            assert(z.drop_first() =~= Seq::<u8>::empty());
            assert(le_val(Seq::<u8>::empty()) == 0);
            assert(z[0] == 0);
            assert(le_val(z) == (z[0] + 256 * le_val(z.drop_first())) as nat);
            assert(le_val(z) == 0);
        },
    }
    lemma_interpret_wire_frame(r);
}

/// The byte stream that a run of records makes, frame after frame.
pub open spec fn spec_encode_all(records: Seq<RecordModel>) -> Seq<u8>
    decreases records.len(),
{
    if records.len() == 0 {
        Seq::empty()
    } else {
        spec_encode_record(records[0]) + spec_encode_all(records.drop_first())
    }
}

/// Every complete leading frame of `s`, in stream order.
pub open spec fn spec_decode_all(s: Seq<u8>) -> Seq<RawFrameModel>
    decreases s.len(),
{
    match spec_decode_frame(s) {
        None => Seq::empty(),
        Some((f, c)) => seq![f] + spec_decode_all(s.skip(c)),
    }
}

/// Stream round trip: the stream made of any run of well-formed records
/// decodes to exactly their wire frames, in the order they were encoded,
/// and each frame interprets back to its record.
pub proof fn lemma_stream_round_trip(records: Seq<RecordModel>)
    requires
        forall|i: int| 0 <= i < records.len() ==> record_wf(#[trigger] records[i]),
    ensures
        spec_decode_all(spec_encode_all(records)) == records.map_values(
            |r: RecordModel| wire_frame_of(r),
        ),
        forall|i: int|
            0 <= i < records.len() ==> spec_interpret(
                #[trigger] spec_decode_all(spec_encode_all(records))[i],
            ) == Ok::<RecordModel, LogError>(records[i]),
    decreases records.len(),
{
    let frames = records.map_values(|r: RecordModel| wire_frame_of(r));
    if records.len() == 0 {
        assert(spec_encode_all(records).len() == 0);
        assert(spec_decode_all(spec_encode_all(records)) =~= frames);
    } else {
        let r0 = records[0];
        let rest = spec_encode_all(records.drop_first());
        let s = spec_encode_all(records);
        assert(s == spec_encode_record(r0) + rest);
        lemma_record_round_trip(r0, rest);
        let c = spec_encode_record(r0).len() as int;
        assert(spec_decode_frame(s) == Some((wire_frame_of(r0), c)));
        assert(s.skip(c) =~= rest);
        lemma_stream_round_trip(records.drop_first());
        assert(spec_decode_all(s) =~= seq![wire_frame_of(r0)] + spec_decode_all(rest));
        assert(records.drop_first().map_values(|r: RecordModel| wire_frame_of(r))
            =~= frames.drop_first());
        assert(spec_decode_all(s) =~= frames);
        assert forall|i: int| 0 <= i < records.len() implies spec_interpret(
            #[trigger] spec_decode_all(s)[i],
        ) == Ok::<RecordModel, LogError>(records[i]) by {
            if i == 0 {
                lemma_interpret_wire_frame(r0);
            } else {
                assert(spec_decode_all(s)[i] == spec_decode_all(rest)[i - 1]);
                assert(spec_decode_all(rest)[i - 1] == records.drop_first().map_values(
                    |r: RecordModel| wire_frame_of(r),
                )[i - 1]);
            }
        }
    }
}

} // verus!
