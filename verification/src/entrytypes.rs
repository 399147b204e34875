//! Typed entry wrappers: fixed byte encodings over the raw entry handle.
//!
//! Each wrapper turns one kind of value — boolean, 64-bit integer, string,
//! raw bytes, or an array of these — into its fixed little-endian payload
//! and queues it through the shared raw handle.  The pipeline never
//! inspects these payloads; the encodings here are the contract with
//! whatever reads the log back.

use vstd::prelude::*;
use vstd::utf8::{encode_utf8, is_ascii_chars, is_ascii_chars_encode_utf8};

use crate::codec::{lp_string, push_bytes};
use crate::varint::{le_bytes, le_bytes_exec, lemma_le_bytes_len};
use crate::writer::{RawEntry, TimeProvider, WPILOGWriter};
use crate::LogError;

verus! {

/// A typed view of one entry: turns a value into this entry's payload
/// encoding and queues it.  `data_ok` says when a value fits the wire
/// format; `entry_ok` says when the handle itself may log.
pub trait Entry<TData> {
    spec fn data_ok(&self, data: &TData) -> bool;

    spec fn entry_ok(&self) -> bool;

    /// Logs `data` stamped with the pipeline's time source.
    fn update(&self, data: TData) -> (r: Result<(), LogError>)
        requires
            self.entry_ok(),
            self.data_ok(&data),
        ensures
            r matches Err(e) ==> e == LogError::PipelineClosed,
    ;

    /// Logs `data` with a caller-supplied timestamp.
    fn update_with_timestamp(&self, data: TData, timestamp: u64) -> (r: Result<(), LogError>)
        requires
            self.entry_ok(),
            self.data_ok(&data),
        ensures
            r matches Err(e) ==> e == LogError::PipelineClosed,
    ;
}

/// One byte per boolean: 1 for true, 0 for false.
pub open spec fn spec_bool_byte(b: bool) -> u8 {
    if b {
        1
    } else {
        0
    }
}

/// Eight little-endian bytes of the integer's two's-complement form.
pub open spec fn spec_i64_bytes(v: i64) -> Seq<u8> {
    le_bytes((v as u64) as nat, 8)
}

/// The concatenation of each boolean's one-byte encoding.
pub open spec fn spec_bool_array_bytes(s: Seq<bool>) -> Seq<u8> {
    Seq::new(s.len(), |i: int| spec_bool_byte(s[i]))
}

/// The concatenation of each integer's eight-byte encoding.
pub open spec fn spec_i64_array_bytes(s: Seq<i64>) -> Seq<u8>
    decreases s.len(),
{
    if s.len() == 0 {
        Seq::empty()
    } else {
        spec_i64_bytes(s[0]) + spec_i64_array_bytes(s.drop_first())
    }
}

/// The length-prefixed blocks of a string array, element after element.
pub open spec fn spec_string_blocks(s: Seq<Seq<char>>) -> Seq<u8>
    decreases s.len(),
{
    if s.len() == 0 {
        Seq::empty()
    } else {
        lp_string(s[0]) + spec_string_blocks(s.drop_first())
    }
}

/// A string array's payload: a four-byte element count, then each element
/// as a length-prefixed UTF-8 block.
pub open spec fn spec_string_array_bytes(s: Seq<Seq<char>>) -> Seq<u8> {
    le_bytes(s.len(), 4) + spec_string_blocks(s)
}

pub proof fn lemma_i64_array_bytes_push(s: Seq<i64>, v: i64)
    ensures
        spec_i64_array_bytes(s.push(v)) == spec_i64_array_bytes(s) + spec_i64_bytes(v),
    decreases s.len(),
{
    lemma_le_bytes_len((v as u64) as nat, 8);
    if s.len() == 0 {
        assert(s.push(v).drop_first() =~= Seq::<i64>::empty());
        assert(s.push(v)[0] == v);
        assert(spec_i64_array_bytes(Seq::<i64>::empty()) =~= Seq::<u8>::empty());
        assert(spec_i64_array_bytes(s.push(v)) =~= spec_i64_bytes(v));
        assert(spec_i64_array_bytes(s) + spec_i64_bytes(v) =~= spec_i64_bytes(v));
    } else {
        lemma_i64_array_bytes_push(s.drop_first(), v);
        assert(s.push(v).drop_first() =~= s.drop_first().push(v));
        assert(spec_i64_array_bytes(s.push(v)) =~= spec_i64_array_bytes(s) + spec_i64_bytes(v));
    }
}

pub proof fn lemma_i64_array_bytes_len(s: Seq<i64>)
    ensures
        spec_i64_array_bytes(s).len() == 8 * s.len(),
    decreases s.len(),
{
    if s.len() > 0 {
        lemma_le_bytes_len((s[0] as u64) as nat, 8);
        lemma_i64_array_bytes_len(s.drop_first());
    }
}

pub proof fn lemma_string_blocks_push(s: Seq<Seq<char>>, v: Seq<char>)
    ensures
        spec_string_blocks(s.push(v)) == spec_string_blocks(s) + lp_string(v),
    decreases s.len(),
{
    if s.len() == 0 {
        assert(s.push(v).drop_first() =~= Seq::<Seq<char>>::empty());
        assert(s.push(v)[0] == v);
        assert(spec_string_blocks(Seq::<Seq<char>>::empty()) =~= Seq::<u8>::empty());
        assert(spec_string_blocks(s.push(v)) =~= lp_string(v));
        assert(spec_string_blocks(s) + lp_string(v) =~= lp_string(v));
    } else {
        lemma_string_blocks_push(s.drop_first(), v);
        assert(s.push(v).drop_first() =~= s.drop_first().push(v));
        assert(spec_string_blocks(s.push(v)) =~= spec_string_blocks(s) + lp_string(v));
    }
}

/// Every element's block is no longer than the whole run of blocks.
pub proof fn lemma_string_block_bound(s: Seq<Seq<char>>, i: int)
    requires
        0 <= i < s.len(),
    ensures
        lp_string(s[i]).len() <= spec_string_blocks(s).len(),
    decreases s.len(),
{
    if i == 0 {
    } else {
        lemma_string_block_bound(s.drop_first(), i - 1);
    }
}

/// Encodes a boolean as its single payload byte.
pub fn encode_bool(data: bool) -> (r: Vec<u8>)
    ensures
        r@ == seq![spec_bool_byte(data)],
{
    let mut r: Vec<u8> = Vec::new();
    if data {
        r.push(1);
    } else {
        r.push(0);
    }
    proof {
        assert(r@ =~= seq![spec_bool_byte(data)]);
    }
    r
}

/// Encodes an integer as its eight little-endian payload bytes.
pub fn encode_i64(data: i64) -> (r: Vec<u8>)
    ensures
        r@ == spec_i64_bytes(data),
        r@.len() == 8,
{
    let r = le_bytes_exec(data as u64, 8);
    proof {
        lemma_le_bytes_len((data as u64) as nat, 8);
    }
    r
}

/// Encodes a boolean array as one byte per element.
pub fn encode_bool_array(data: &Vec<bool>) -> (r: Vec<u8>)
    ensures
        r@ == spec_bool_array_bytes(data@),
        r@.len() == data@.len(),
{
    let mut r: Vec<u8> = Vec::new();
    let mut i: usize = 0;
    while i < data.len()
        invariant
            i <= data@.len(),
            r@ =~= spec_bool_array_bytes(data@.take(i as int)),
            r@.len() == i,
        decreases data@.len() - i,
    {
        let b: bool = data[i];
        if b {
            r.push(1);
        } else {
            r.push(0);
        }
        proof {
            assert(r@ =~= spec_bool_array_bytes(data@.take(i + 1)));
        }
        i = i + 1;
    }
    proof {
        assert(data@.take(data@.len() as int) =~= data@);
    }
    r
}

/// Encodes an integer array as eight little-endian bytes per element.
pub fn encode_i64_array(data: &Vec<i64>) -> (r: Vec<u8>)
    ensures
        r@ == spec_i64_array_bytes(data@),
        r@.len() == 8 * data@.len(),
{
    let mut r: Vec<u8> = Vec::new();
    let mut i: usize = 0;
    proof {
        assert(spec_i64_array_bytes(data@.take(0)) =~= Seq::<u8>::empty());
    }
    while i < data.len()
        invariant
            i <= data@.len(),
            r@ =~= spec_i64_array_bytes(data@.take(i as int)),
            r@.len() == 8 * i,
        decreases data@.len() - i,
    {
        let v: i64 = data[i];
        let enc = encode_i64(v);
        push_bytes(&mut r, enc.as_slice());
        proof {
            lemma_i64_array_bytes_push(data@.take(i as int), v);
            assert(data@.take(i + 1) =~= data@.take(i as int).push(v));
        }
        i = i + 1;
    }
    proof {
        assert(data@.take(data@.len() as int) =~= data@);
        lemma_i64_array_bytes_len(data@);
    }
    r
}

/// The views of a string array's elements.
pub open spec fn string_views(s: Seq<String>) -> Seq<Seq<char>> {
    s.map_values(|e: String| e@)
}

/// Encodes a string array: four count bytes, then a length-prefixed UTF-8
/// block per element.
pub fn encode_string_array(data: &Vec<String>) -> (r: Vec<u8>)
    requires
        data@.len() < 0x1_0000_0000,
        spec_string_array_bytes(string_views(data@)).len() < 0x1_0000_0000,
    ensures
        r@ == spec_string_array_bytes(string_views(data@)),
{
    let views = Ghost(string_views(data@));
    let mut r: Vec<u8> = le_bytes_exec(data.len() as u64, 4);
    let mut i: usize = 0;
    proof {
        lemma_le_bytes_len(data@.len(), 4);
        assert(spec_string_blocks(views@.take(0)) =~= Seq::<u8>::empty());
        assert(r@ =~= le_bytes(views@.len(), 4) + spec_string_blocks(views@.take(0)));
    }
    while i < data.len()
        invariant
            i <= data@.len(),
            views@ == string_views(data@),
            views@.len() == data@.len(),
            spec_string_array_bytes(views@).len() < 0x1_0000_0000,
            r@ =~= le_bytes(views@.len(), 4) + spec_string_blocks(views@.take(i as int)),
        decreases data@.len() - i,
    {
        let s: &String = &data[i];
        proof {
            lemma_string_block_bound(views@, i as int);
            crate::varint::lemma_le_bytes_len(encode_utf8(s@).len(), 4);
            assert(views@[i as int] == s@);
        }
        crate::codec::push_lp_string(&mut r, s.as_str());
        proof {
            lemma_string_blocks_push(views@.take(i as int), s@);
            assert(views@.take(i + 1) =~= views@.take(i as int).push(s@));
            assert(r@ =~= le_bytes(views@.len(), 4) + spec_string_blocks(views@.take(i + 1)));
        }
        i = i + 1;
    }
    proof {
        assert(views@.take(views@.len() as int) =~= views@);
    }
    r
}

/// Encodes a string as its raw UTF-8 bytes.
pub fn encode_string(data: &String) -> (r: Vec<u8>)
    ensures
        r@ == encode_utf8(data@),
{
    vstd::slice::slice_to_vec(data.as_str().as_bytes())
}

/// The UTF-8 byte length of an optional metadata string; an absent one
/// defaults to empty.
pub open spec fn spec_opt_len(m: Option<String>) -> nat {
    match m {
        Some(s) => encode_utf8(s@).len(),
        None => 0,
    }
}

/// An entry of raw, uninterpreted bytes.
pub struct BytesEntry<T: TimeProvider + Clone>(RawEntry<T>);

/// An entry of booleans, one payload byte each.
pub struct BooleanEntry<T: TimeProvider + Clone>(RawEntry<T>);

/// An entry of 64-bit integers, eight little-endian payload bytes each.
pub struct I64Entry<T: TimeProvider + Clone>(RawEntry<T>);

/// An entry of strings, raw UTF-8 payload bytes.
pub struct StringEntry<T: TimeProvider + Clone>(RawEntry<T>);

/// An entry of boolean arrays.
pub struct BooleanArrayEntry<T: TimeProvider + Clone>(RawEntry<T>);

/// An entry of 64-bit integer arrays.
pub struct I64ArrayEntry<T: TimeProvider + Clone>(RawEntry<T>);

/// An entry of string arrays.
pub struct StringArrayEntry<T: TimeProvider + Clone>(RawEntry<T>);

impl<T: TimeProvider + Clone> Entry<Vec<u8>> for BytesEntry<T> {
    open spec fn data_ok(&self, data: &Vec<u8>) -> bool {
        data@.len() < 0x1_0000_0000
    }

    closed spec fn entry_ok(&self) -> bool {
        self.0.spec_id() != 0
    }

    fn update(&self, data: Vec<u8>) -> (r: Result<(), LogError>) {
        let timestamp = self.0.time_provider.get_time();
        self.update_with_timestamp(data, timestamp)
    }

    fn update_with_timestamp(&self, data: Vec<u8>, timestamp: u64) -> (r: Result<(), LogError>) {
        self.0.log_data_with_timestamp(data, timestamp)
    }
}

impl<T: TimeProvider + Clone> Entry<bool> for BooleanEntry<T> {
    open spec fn data_ok(&self, data: &bool) -> bool {
        true
    }

    closed spec fn entry_ok(&self) -> bool {
        self.0.spec_id() != 0
    }

    fn update(&self, data: bool) -> (r: Result<(), LogError>) {
        let timestamp = self.0.time_provider.get_time();
        self.update_with_timestamp(data, timestamp)
    }

    fn update_with_timestamp(&self, data: bool, timestamp: u64) -> (r: Result<(), LogError>) {
        self.0.log_data_with_timestamp(encode_bool(data), timestamp)
    }
}

impl<T: TimeProvider + Clone> Entry<i64> for I64Entry<T> {
    open spec fn data_ok(&self, data: &i64) -> bool {
        true
    }

    closed spec fn entry_ok(&self) -> bool {
        self.0.spec_id() != 0
    }

    fn update(&self, data: i64) -> (r: Result<(), LogError>) {
        let timestamp = self.0.time_provider.get_time();
        self.update_with_timestamp(data, timestamp)
    }

    fn update_with_timestamp(&self, data: i64, timestamp: u64) -> (r: Result<(), LogError>) {
        self.0.log_data_with_timestamp(encode_i64(data), timestamp)
    }
}

impl<T: TimeProvider + Clone> Entry<String> for StringEntry<T> {
    open spec fn data_ok(&self, data: &String) -> bool {
        encode_utf8(data@).len() < 0x1_0000_0000
    }

    closed spec fn entry_ok(&self) -> bool {
        self.0.spec_id() != 0
    }

    fn update(&self, data: String) -> (r: Result<(), LogError>) {
        let timestamp = self.0.time_provider.get_time();
        self.update_with_timestamp(data, timestamp)
    }

    fn update_with_timestamp(&self, data: String, timestamp: u64) -> (r: Result<(), LogError>) {
        self.0.log_data_with_timestamp(encode_string(&data), timestamp)
    }
}

impl<T: TimeProvider + Clone> Entry<Vec<bool>> for BooleanArrayEntry<T> {
    open spec fn data_ok(&self, data: &Vec<bool>) -> bool {
        data@.len() < 0x1_0000_0000
    }

    closed spec fn entry_ok(&self) -> bool {
        self.0.spec_id() != 0
    }

    fn update(&self, data: Vec<bool>) -> (r: Result<(), LogError>) {
        let timestamp = self.0.time_provider.get_time();
        self.update_with_timestamp(data, timestamp)
    }

    fn update_with_timestamp(&self, data: Vec<bool>, timestamp: u64) -> (r: Result<(), LogError>) {
        self.0.log_data_with_timestamp(encode_bool_array(&data), timestamp)
    }
}

impl<T: TimeProvider + Clone> Entry<Vec<i64>> for I64ArrayEntry<T> {
    open spec fn data_ok(&self, data: &Vec<i64>) -> bool {
        8 * data@.len() < 0x1_0000_0000
    }

    closed spec fn entry_ok(&self) -> bool {
        self.0.spec_id() != 0
    }

    fn update(&self, data: Vec<i64>) -> (r: Result<(), LogError>) {
        let timestamp = self.0.time_provider.get_time();
        self.update_with_timestamp(data, timestamp)
    }

    fn update_with_timestamp(&self, data: Vec<i64>, timestamp: u64) -> (r: Result<(), LogError>) {
        self.0.log_data_with_timestamp(encode_i64_array(&data), timestamp)
    }
}

impl<T: TimeProvider + Clone> Entry<Vec<String>> for StringArrayEntry<T> {
    open spec fn data_ok(&self, data: &Vec<String>) -> bool {
        data@.len() < 0x1_0000_0000 && spec_string_array_bytes(string_views(data@)).len()
            < 0x1_0000_0000
    }

    closed spec fn entry_ok(&self) -> bool {
        self.0.spec_id() != 0
    }

    fn update(&self, data: Vec<String>) -> (r: Result<(), LogError>) {
        let timestamp = self.0.time_provider.get_time();
        self.update_with_timestamp(data, timestamp)
    }

    fn update_with_timestamp(&self, data: Vec<String>, timestamp: u64) -> (r: Result<
        (),
        LogError,
    >) {
        self.0.log_data_with_timestamp(encode_string_array(&data), timestamp)
    }
}

impl<T: TimeProvider + Clone> WPILOGWriter<T> {
    /// Makes the raw entry behind every typed constructor: the type name is
    /// fixed by the wrapper kind, and absent metadata defaults to empty.
    fn make_typed_entry(&mut self, name: String, entry_type: &str, metadata: Option<String>) -> (r:
        Result<RawEntry<T>, LogError>)
        requires
            old(self).wf(),
            old(self).spec_next_id() < 0xFFFF_FFFFu32,
            is_ascii_chars(entry_type@),
            entry_type@.len() <= 9,
            encode_utf8(name@).len() + spec_opt_len(metadata) + 26 < 0x1_0000_0000,
        ensures
            final(self).wf(),
            final(self).spec_next_id() == old(self).spec_next_id() + 1,
            final(self).issued_ids() == old(self).issued_ids().push(old(self).spec_next_id()),
            match r {
                Ok(e) => e.spec_id() == old(self).spec_next_id(),
                Err(e) => e == LogError::PipelineClosed,
            },
    {
        let md = match metadata {
            Some(m) => m,
            None => String::new(),
        };
        proof {
            is_ascii_chars_encode_utf8(entry_type@);
            assert(encode_utf8(Seq::<char>::empty()) =~= Seq::<u8>::empty());
        }
        let et = entry_type.to_owned();
        self.make_entry(name, et, md)
    }

    /// Creates a new [`BytesEntry`], of wire type "raw".
    pub fn new_bytes_entry(&mut self, name: String, metadata: Option<String>) -> (r: Result<
        BytesEntry<T>,
        LogError,
    >)
        requires
            old(self).wf(),
            old(self).spec_next_id() < 0xFFFF_FFFFu32,
            encode_utf8(name@).len() + spec_opt_len(metadata) + 26 < 0x1_0000_0000,
        ensures
            final(self).wf(),
            final(self).spec_next_id() == old(self).spec_next_id() + 1,
            final(self).issued_ids() == old(self).issued_ids().push(old(self).spec_next_id()),
            match r {
                Ok(e) => e.spec_id() == old(self).spec_next_id() && e.entry_ok(),
                Err(e) => e == LogError::PipelineClosed,
            },
    {
        proof {
            reveal_strlit("raw");
        }
        match self.make_typed_entry(name, "raw", metadata) {
            Ok(raw) => Ok(BytesEntry(raw)),
            Err(e) => Err(e),
        }
    }

    /// Creates a new [`BooleanEntry`], of wire type "boolean".
    pub fn new_bool_entry(&mut self, name: String, metadata: Option<String>) -> (r: Result<
        BooleanEntry<T>,
        LogError,
    >)
        requires
            old(self).wf(),
            old(self).spec_next_id() < 0xFFFF_FFFFu32,
            encode_utf8(name@).len() + spec_opt_len(metadata) + 26 < 0x1_0000_0000,
        ensures
            final(self).wf(),
            final(self).spec_next_id() == old(self).spec_next_id() + 1,
            final(self).issued_ids() == old(self).issued_ids().push(old(self).spec_next_id()),
            match r {
                Ok(e) => e.spec_id() == old(self).spec_next_id() && e.entry_ok(),
                Err(e) => e == LogError::PipelineClosed,
            },
    {
        proof {
            reveal_strlit("boolean");
        }
        match self.make_typed_entry(name, "boolean", metadata) {
            Ok(raw) => Ok(BooleanEntry(raw)),
            Err(e) => Err(e),
        }
    }

    /// Creates a new [`I64Entry`], of wire type "int64".
    pub fn new_i64_entry(&mut self, name: String, metadata: Option<String>) -> (r: Result<
        I64Entry<T>,
        LogError,
    >)
        requires
            old(self).wf(),
            old(self).spec_next_id() < 0xFFFF_FFFFu32,
            encode_utf8(name@).len() + spec_opt_len(metadata) + 26 < 0x1_0000_0000,
        ensures
            final(self).wf(),
            final(self).spec_next_id() == old(self).spec_next_id() + 1,
            final(self).issued_ids() == old(self).issued_ids().push(old(self).spec_next_id()),
            match r {
                Ok(e) => e.spec_id() == old(self).spec_next_id() && e.entry_ok(),
                Err(e) => e == LogError::PipelineClosed,
            },
    {
        proof {
            reveal_strlit("int64");
        }
        match self.make_typed_entry(name, "int64", metadata) {
            Ok(raw) => Ok(I64Entry(raw)),
            Err(e) => Err(e),
        }
    }

    /// Creates a new [`StringEntry`], of wire type "string".
    pub fn new_string_entry(&mut self, name: String, metadata: Option<String>) -> (r: Result<
        StringEntry<T>,
        LogError,
    >)
        requires
            old(self).wf(),
            old(self).spec_next_id() < 0xFFFF_FFFFu32,
            encode_utf8(name@).len() + spec_opt_len(metadata) + 26 < 0x1_0000_0000,
        ensures
            final(self).wf(),
            final(self).spec_next_id() == old(self).spec_next_id() + 1,
            final(self).issued_ids() == old(self).issued_ids().push(old(self).spec_next_id()),
            match r {
                Ok(e) => e.spec_id() == old(self).spec_next_id() && e.entry_ok(),
                Err(e) => e == LogError::PipelineClosed,
            },
    {
        proof {
            reveal_strlit("string");
        }
        match self.make_typed_entry(name, "string", metadata) {
            Ok(raw) => Ok(StringEntry(raw)),
            Err(e) => Err(e),
        }
    }

    /// Creates a new [`BooleanArrayEntry`], of wire type "boolean[]".
    pub fn new_bool_array_entry(&mut self, name: String, metadata: Option<String>) -> (r: Result<
        BooleanArrayEntry<T>,
        LogError,
    >)
        requires
            old(self).wf(),
            old(self).spec_next_id() < 0xFFFF_FFFFu32,
            encode_utf8(name@).len() + spec_opt_len(metadata) + 26 < 0x1_0000_0000,
        ensures
            final(self).wf(),
            final(self).spec_next_id() == old(self).spec_next_id() + 1,
            final(self).issued_ids() == old(self).issued_ids().push(old(self).spec_next_id()),
            match r {
                Ok(e) => e.spec_id() == old(self).spec_next_id() && e.entry_ok(),
                Err(e) => e == LogError::PipelineClosed,
            },
    {
        proof {
            reveal_strlit("boolean[]");
        }
        match self.make_typed_entry(name, "boolean[]", metadata) {
            Ok(raw) => Ok(BooleanArrayEntry(raw)),
            Err(e) => Err(e),
        }
    }

    /// Creates a new [`I64ArrayEntry`], of wire type "int64[]".
    pub fn new_i64_array_entry(&mut self, name: String, metadata: Option<String>) -> (r: Result<
        I64ArrayEntry<T>,
        LogError,
    >)
        requires
            old(self).wf(),
            old(self).spec_next_id() < 0xFFFF_FFFFu32,
            encode_utf8(name@).len() + spec_opt_len(metadata) + 26 < 0x1_0000_0000,
        ensures
            final(self).wf(),
            final(self).spec_next_id() == old(self).spec_next_id() + 1,
            final(self).issued_ids() == old(self).issued_ids().push(old(self).spec_next_id()),
            match r {
                Ok(e) => e.spec_id() == old(self).spec_next_id() && e.entry_ok(),
                Err(e) => e == LogError::PipelineClosed,
            },
    {
        proof {
            reveal_strlit("int64[]");
        }
        match self.make_typed_entry(name, "int64[]", metadata) {
            Ok(raw) => Ok(I64ArrayEntry(raw)),
            Err(e) => Err(e),
        }
    }

    /// Creates a new [`StringArrayEntry`], of wire type "string[]".
    pub fn new_string_array_entry(&mut self, name: String, metadata: Option<String>) -> (r: Result<
        StringArrayEntry<T>,
        LogError,
    >)
        requires
            old(self).wf(),
            old(self).spec_next_id() < 0xFFFF_FFFFu32,
            encode_utf8(name@).len() + spec_opt_len(metadata) + 26 < 0x1_0000_0000,
        ensures
            final(self).wf(),
            final(self).spec_next_id() == old(self).spec_next_id() + 1,
            final(self).issued_ids() == old(self).issued_ids().push(old(self).spec_next_id()),
            match r {
                Ok(e) => e.spec_id() == old(self).spec_next_id() && e.entry_ok(),
                Err(e) => e == LogError::PipelineClosed,
            },
    {
        proof {
            reveal_strlit("string[]");
        }
        match self.make_typed_entry(name, "string[]", metadata) {
            Ok(raw) => Ok(StringArrayEntry(raw)),
            Err(e) => Err(e),
        }
    }
}

impl<T: TimeProvider + Clone> BytesEntry<T> {
    /// The entry id this handle is bound to.
    pub closed spec fn spec_id(&self) -> u32 {
        self.0.spec_id()
    }

    /// Releases the entry, queueing its best-effort `Finish` control
    /// record.
    pub fn finish(self) {
        self.0.finish();
    }
}

impl<T: TimeProvider + Clone> BooleanEntry<T> {
    /// The entry id this handle is bound to.
    pub closed spec fn spec_id(&self) -> u32 {
        self.0.spec_id()
    }

    /// Releases the entry, queueing its best-effort `Finish` control
    /// record.
    pub fn finish(self) {
        self.0.finish();
    }
}

impl<T: TimeProvider + Clone> I64Entry<T> {
    /// The entry id this handle is bound to.
    pub closed spec fn spec_id(&self) -> u32 {
        self.0.spec_id()
    }

    /// Releases the entry, queueing its best-effort `Finish` control
    /// record.
    pub fn finish(self) {
        self.0.finish();
    }
}

impl<T: TimeProvider + Clone> StringEntry<T> {
    /// The entry id this handle is bound to.
    pub closed spec fn spec_id(&self) -> u32 {
        self.0.spec_id()
    }

    /// Releases the entry, queueing its best-effort `Finish` control
    /// record.
    pub fn finish(self) {
        self.0.finish();
    }
}

impl<T: TimeProvider + Clone> BooleanArrayEntry<T> {
    /// The entry id this handle is bound to.
    pub closed spec fn spec_id(&self) -> u32 {
        self.0.spec_id()
    }

    /// Releases the entry, queueing its best-effort `Finish` control
    /// record.
    pub fn finish(self) {
        self.0.finish();
    }
}

impl<T: TimeProvider + Clone> I64ArrayEntry<T> {
    /// The entry id this handle is bound to.
    pub closed spec fn spec_id(&self) -> u32 {
        self.0.spec_id()
    }

    /// Releases the entry, queueing its best-effort `Finish` control
    /// record.
    pub fn finish(self) {
        self.0.finish();
    }
}

impl<T: TimeProvider + Clone> StringArrayEntry<T> {
    /// The entry id this handle is bound to.
    pub closed spec fn spec_id(&self) -> u32 {
        self.0.spec_id()
    }

    /// Releases the entry, queueing its best-effort `Finish` control
    /// record.
    pub fn finish(self) {
        self.0.finish();
    }
}

} // verus!
