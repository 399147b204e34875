//! Writer pipeline: many entry handles, one ordered stream of frames.
//!
//! The pipeline owns the producing side of one unbounded FIFO channel and
//! allocates entry ids, monotonically from 1.  Each logging call encodes its
//! record — encoding is verified byte-for-byte in [`crate::codec`] — and
//! queues the frame.  A single consumer (the application's worker) drains
//! the receiving side and writes each message to the sink in arrival order;
//! the header bytes travel the same queue first of all, so the drained
//! stream is a whole log file.

use vstd::prelude::*;
use vstd::utf8::encode_utf8;

use crate::channel::{channel_unbounded, clone_sender, send_message};
use crate::codec::{record_wf, spec_header};
use crate::varint::{le_bytes, lemma_le_bytes_index, pow256};
use crate::{ControlData, LogError, Record, RecordInfo};

verus! {

/// A source of timestamps, in microseconds.  The pipeline stamps records
/// through whatever implementation it was built with, so tests and replays
/// can substitute a deterministic one.
pub trait TimeProvider {
    fn get_time(&self) -> u64;
}

/// The bytes that open every log file: the magic string, the version word,
/// and an empty extra header.
pub fn header_bytes() -> (r: Vec<u8>)
    ensures
        r@ == spec_header(Seq::<u8>::empty()),
{
    let mut r: Vec<u8> = Vec::new();
    r.push(0x57);
    r.push(0x50);
    r.push(0x49);
    r.push(0x4c);
    r.push(0x4f);
    r.push(0x47);
    r.push(0x00);
    r.push(0x01);
    r.push(0x00);
    r.push(0x00);
    r.push(0x00);
    r.push(0x00);
    proof {
        assert forall|i: int| 0 <= i < 4 implies le_bytes(0, 4)[i] == 0 by {
            lemma_le_bytes_index(0, 4, i);
            crate::varint::lemma_pow256_pos(i as nat);
            assert(0nat / pow256(i as nat) == 0);
        }
        crate::varint::lemma_le_bytes_len(0, 4);
        assert(r@ =~= spec_header(Seq::<u8>::empty()));
    }
    r
}

/// The writing side of one log: allocates entry ids and queues encoded
/// frames for the single consumer.
pub struct WPILOGWriter<T: TimeProvider + Clone> {
    next_id: u32,
    sender: kanal::Sender<Option<Vec<u8>>>,
    time_provider: T,
    issued: Ghost<Seq<u32>>,
}

/// A handle bound to one entry id, able to queue data records for it.
pub struct RawEntry<T: TimeProvider + Clone> {
    pub(crate) id: u32,
    pub(crate) sender: kanal::Sender<Option<Vec<u8>>>,
    pub(crate) time_provider: T,
}

impl<T: TimeProvider + Clone> WPILOGWriter<T> {
    /// The id the next entry will get.
    pub closed spec fn spec_next_id(&self) -> u32 {
        self.next_id
    }

    /// Every id allocated so far, in allocation order.
    pub closed spec fn issued_ids(&self) -> Seq<u32> {
        self.issued@
    }

    /// The allocation invariant: ids run 1, 2, 3, ... without gap or reuse.
    pub open spec fn wf(&self) -> bool {
        &&& self.spec_next_id() >= 1
        &&& self.issued_ids() == Seq::new(
            (self.spec_next_id() - 1) as nat,
            |i: int| (i + 1) as u32,
        )
    }

    /// Opens a pipeline: makes the channel, queues the file header as the
    /// first message, and hands back the writer and the receiving side for
    /// the consumer to drain.
    pub fn new(time_provider: T) -> (r: (WPILOGWriter<T>, kanal::Receiver<Option<Vec<u8>>>))
        ensures
            r.0.wf(),
            r.0.spec_next_id() == 1,
            r.0.issued_ids() == Seq::<u32>::empty(),
    {
        let (sender, receiver) = channel_unbounded();
        let hdr = header_bytes();
        let _queued = send_message(&sender, Some(hdr));
        let w = WPILOGWriter {
            next_id: 1,
            sender,
            time_provider,
            issued: Ghost(Seq::empty()),
        };
        proof {
            assert(w.issued_ids() =~= Seq::new(0, |i: int| (i + 1) as u32));
        }
        (w, receiver)
    }

    /// Allocates the next id, queues a `Start` control record declaring the
    /// entry, and returns the handle bound to that id.  The id is consumed
    /// even when the queue has already closed, so ids are never reused.
    /// Fails with `PipelineClosed` exactly when the channel refuses the
    /// record.
    pub fn make_entry(&mut self, name: String, entry_type: String, metadata: String) -> (r:
        Result<RawEntry<T>, LogError>)
        requires
            old(self).wf(),
            old(self).spec_next_id() < 0xFFFF_FFFFu32,
            encode_utf8(name@).len() + encode_utf8(entry_type@).len() + encode_utf8(metadata@).len()
                + 17 < 0x1_0000_0000,
        ensures
            final(self).wf(),
            final(self).spec_next_id() == old(self).spec_next_id() + 1,
            final(self).issued_ids() == old(self).issued_ids().push(old(self).spec_next_id()),
            match r {
                Ok(e) => e.spec_id() == old(self).spec_next_id(),
                Err(e) => e == LogError::PipelineClosed,
            },
    {
        let id = self.next_id;
        self.next_id = self.next_id + 1;
        proof {
            let prev = self.issued@;
            assert(prev.push(id) =~= Seq::new((self.next_id - 1) as nat, |i: int| (i + 1) as u32));
        }
        self.issued = Ghost(self.issued@.push(id));
        let timestamp = self.time_provider.get_time();
        let record = Record {
            id,
            timestamp,
            info: RecordInfo::Control(ControlData::Start { name, entry_type, metadata }),
        };
        let bytes = record.encode();
        if send_message(&self.sender, Some(bytes)) {
            Ok(
                RawEntry {
                    id,
                    sender: clone_sender(&self.sender),
                    time_provider: self.time_provider.clone(),
                },
            )
        } else {
            Err(LogError::PipelineClosed)
        }
    }

    /// The id the next entry will get.
    pub fn next_id(&self) -> (r: u32)
        ensures
            r == self.spec_next_id(),
    {
        self.next_id
    }

    /// Queues the stop signal.  The consumer drains everything queued
    /// before it, flushes, and exits; anything queued after is lost by
    /// design.  Fails with `PipelineClosed` when the channel already
    /// closed.
    pub fn join(self) -> (r: Result<(), LogError>)
        ensures
            r matches Err(e) ==> e == LogError::PipelineClosed,
    {
        if send_message(&self.sender, None) {
            Ok(())
        } else {
            Err(LogError::PipelineClosed)
        }
    }
}

/// Law: under the allocation invariant the allocated ids are the strictly
/// increasing run 1, 2, 3, ... — all distinct, starting at 1, in
/// allocation order — however many entries were made.
pub proof fn lemma_issued_ids_monotonic<T: TimeProvider + Clone>(w: &WPILOGWriter<T>)
    requires
        w.wf(),
    ensures
        forall|i: int| 0 <= i < w.issued_ids().len() ==> w.issued_ids()[i] == i + 1,
        forall|i: int, j: int|
            0 <= i < j < w.issued_ids().len() ==> w.issued_ids()[i] < w.issued_ids()[j],
        w.issued_ids().len() > 0 ==> w.issued_ids()[0] == 1,
{
}

impl<T: TimeProvider + Clone> RawEntry<T> {
    /// The entry id this handle is bound to.
    pub closed spec fn spec_id(&self) -> u32 {
        self.id
    }

    pub fn id(&self) -> (r: u32)
        ensures
            r == self.spec_id(),
    {
        self.id
    }

    /// Queues one data record with the payload as given, stamped with the
    /// pipeline's time source.  Fails with `PipelineClosed` exactly when
    /// the channel refuses it.
    pub fn log_data(&self, data: Vec<u8>) -> (r: Result<(), LogError>)
        requires
            self.spec_id() != 0,
            data@.len() < 0x1_0000_0000,
        ensures
            r matches Err(e) ==> e == LogError::PipelineClosed,
    {
        let timestamp = self.time_provider.get_time();
        self.log_data_with_timestamp(data, timestamp)
    }

    /// Queues one data record with a caller-supplied timestamp, for
    /// synchronized or backfilled records.  Fails with `PipelineClosed`
    /// exactly when the channel refuses it.
    pub fn log_data_with_timestamp(&self, data: Vec<u8>, timestamp: u64) -> (r: Result<
        (),
        LogError,
    >)
        requires
            self.spec_id() != 0,
            data@.len() < 0x1_0000_0000,
        ensures
            r matches Err(e) ==> e == LogError::PipelineClosed,
    {
        let record = Record { id: self.id, timestamp, info: RecordInfo::Data(data) };
        let bytes = record.encode();
        if send_message(&self.sender, Some(bytes)) {
            Ok(())
        } else {
            Err(LogError::PipelineClosed)
        }
    }

    /// Queues a `SetMetadata` control record replacing this entry's
    /// metadata.  Fails with `PipelineClosed` exactly when the channel
    /// refuses it.
    pub fn set_metadata(&self, metadata: String) -> (r: Result<(), LogError>)
        requires
            encode_utf8(metadata@).len() + 9 < 0x1_0000_0000,
        ensures
            r matches Err(e) ==> e == LogError::PipelineClosed,
    {
        let timestamp = self.time_provider.get_time();
        let record = Record {
            id: self.id,
            timestamp,
            info: RecordInfo::Control(ControlData::SetMetadata(metadata)),
        };
        let bytes = record.encode();
        if send_message(&self.sender, Some(bytes)) {
            Ok(())
        } else {
            Err(LogError::PipelineClosed)
        }
    }

    /// Releases the handle, queueing a `Finish` control record for its id.
    /// Best-effort by design: on a pipeline that already closed the record
    /// is silently dropped, since nothing can be done about it then.
    pub fn finish(self) {
        let timestamp = self.time_provider.get_time();
        let record = Record {
            id: self.id,
            timestamp,
            info: RecordInfo::Control(ControlData::Finish),
        };
        let bytes = record.encode();
        let _queued = send_message(&self.sender, Some(bytes));
    }
}

} // verus!
