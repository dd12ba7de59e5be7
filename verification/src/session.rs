//! A measurement session: the producer and consumer state machines over one
//! ring, their timestamp recorders, and the control-channel hand-off of the
//! producer's trace.
//!
//! Each domain's loop iteration is a step function here, so a host can run
//! the two sides in separate execution contexts and hand every decision to
//! the library: the producer step writes the next ordinal's payload or
//! reports why it could not, the consumer step reads and validates one
//! payload. `run_session` drives both to completion in one context and
//! returns the metrics the harness reports.

use crate::control::ControlChannel;
use crate::message::{
    check_payload, lemma_decimal_len_u64, lemma_parse_message_bytes, spec_message_bytes, Message,
};
use crate::ring::{RingBuffer, SyncStrategy, WriteOutcome};
use crate::timestamp::{Timestamp, TimestampRecorder, TimestampTag};
use crate::transport::MappingFailure;
use vstd::prelude::*;

verus! {

/// What one consumer step did.
#[derive(Copy, Clone, Debug, PartialEq, Eq, Structural)]
pub enum ReadOutcome {
    /// The oldest unread payload was read and carried the expected ordinal.
    ReadMessage,
    /// No head advance was observed: nothing to read yet.
    ReadWouldBlock,
    /// The payload's embedded ordinal did not match the expected one; the
    /// session's sync flag drops and the harness halts.
    ReadMismatch,
}

/// What the consumer harness reports at session end.
pub struct Metrics {
    /// Total payload bytes transferred.
    pub data_size: usize,
    /// Whether every payload carried its expected ordinal.
    pub sync: bool,
    /// The merged trace: the consumer's entries, then the producer's,
    /// fetched over the control channel.
    pub recorder: TimestampRecorder,
}

/// Four entries appended for one bracketed pair of measured regions, in
/// order, all from the same domain and for the same message ordinal.
pub open spec fn records_quad(
    pre: Seq<Timestamp>,
    post: Seq<Timestamp>,
    t0: TimestampTag,
    t1: TimestampTag,
    t2: TimestampTag,
    t3: TimestampTag,
    ku: bool,
    ticker: u64,
) -> bool {
    &&& post.len() == pre.len() + 4
    &&& post.take(pre.len() as int) == pre
    &&& post[pre.len() as int].tag == t0
    &&& post[pre.len() as int + 1].tag == t1
    &&& post[pre.len() as int + 2].tag == t2
    &&& post[pre.len() as int + 3].tag == t3
    &&& forall|j: int|
        pre.len() <= j < post.len() ==> #[trigger] post[j].ku == ku && post[j].ticker == ticker
}

/// One measurement session over one ring.
pub struct Session {
    /// The shared ring.
    pub ring: RingBuffer,
    /// The producer's next message ordinal.
    pub ticker: u64,
    /// The producer domain's trace.
    pub producer_recorder: TimestampRecorder,
    /// The producer-side control-channel state.
    pub channel: ControlChannel,
    /// The consumer's next expected ordinal.
    pub expected: u64,
    /// The consumer domain's trace.
    pub consumer_recorder: TimestampRecorder,
    /// Payload bytes transferred so far.
    pub data_size: usize,
    /// Dropped on the first integrity mismatch.
    pub sync: bool,
}

impl Session {
    /// Session invariant: the ring is well formed with room for any 64-bit
    /// ordinal's payload, the unread messages are exactly the canonical
    /// payloads of the ordinals between the consumer's and the producer's
    /// counters, and the latched count never outruns the producer's trace.
    pub open spec fn wf(&self) -> bool {
        &&& self.ring.wf()
        &&& self.ring.spec_slot_size() >= 21
        &&& self.ticker == self.expected + self.ring.contents().len()
        &&& forall|k: int|
            0 <= k < self.ring.contents().len() ==> #[trigger] self.ring.contents()[k]
                == spec_message_bytes(
                (self.expected + k) as nat,
                self.ring.spec_slot_size() as nat,
            )
        &&& self.channel.spec_latched() <= self.producer_recorder@.len()
    }

    /// A fresh session over a new contiguous ring, counters at zero. Fails
    /// with `MappingFailure` exactly when the region would not fit the
    /// machine. The slot size must leave room for any 64-bit ordinal's
    /// digits and the terminator.
    pub fn new(
        slot_size: usize,
        slot_count: usize,
        header_bytes: usize,
        strategy: SyncStrategy,
    ) -> (r: Result<Session, MappingFailure>)
        requires
            slot_size >= 21,
            slot_count >= 2,
            header_bytes >= 16,
        ensures
            r is Ok <==> header_bytes + slot_size * slot_count <= usize::MAX,
            r matches Ok(s) ==> {
                &&& s.wf()
                &&& s.ring.spec_slot_size() == slot_size
                &&& s.ring.spec_slot_count() == slot_count
                &&& s.ring.spec_strategy() == strategy
                &&& !s.ring.spec_stopped()
                &&& s.ring.contents() == Seq::<Seq<u8>>::empty()
                &&& s.ticker == 0
                &&& s.expected == 0
                &&& s.producer_recorder@ == Seq::<Timestamp>::empty()
                &&& s.consumer_recorder@ == Seq::<Timestamp>::empty()
                &&& s.data_size == 0
                &&& s.sync
            },
    {
        let ring = match RingBuffer::new(slot_size, slot_count, header_bytes, strategy) {
            Ok(ring) => ring,
            Err(e) => {
                return Err(e);
            },
        };
        Ok(
            Session {
                ring,
                ticker: 0,
                producer_recorder: TimestampRecorder::new(),
                channel: ControlChannel::new(),
                expected: 0,
                consumer_recorder: TimestampRecorder::new(),
                data_size: 0,
                sync: true,
            },
        )
    }

    /// Raises the stop signal the producer's wait loop observes. Part of the
    /// release path: it must run even after a failed session, so the
    /// opposite domain does not spin forever.
    pub fn stop(&mut self)
        requires
            old(self).wf(),
        ensures
            final(self).wf(),
            final(self).ring.spec_stopped(),
            final(self).ring.contents() == old(self).ring.contents(),
            final(self).ticker == old(self).ticker,
            final(self).expected == old(self).expected,
            final(self).data_size == old(self).data_size,
            final(self).sync == old(self).sync,
            final(self).producer_recorder@ == old(self).producer_recorder@,
            final(self).consumer_recorder@ == old(self).consumer_recorder@,
    {
        self.ring.stop();
    }

    /// One iteration of the producer's loop.
    ///
    /// With a free slot it brackets its cursor sync and its payload copy
    /// with `WriteSync*`/`Write*` entries, writes the canonical payload of
    /// the current ordinal, publishes it, and moves to the next ordinal. On
    /// a full ring it writes nothing and touches no slot: it exits if a stop
    /// has been observed and asks to wait otherwise.
    pub fn producer_step(&mut self) -> (outcome: WriteOutcome)
        requires
            old(self).wf(),
            old(self).ticker < u64::MAX,
        ensures
            final(self).wf(),
            !old(self).ring.spec_is_full() ==> {
                &&& outcome == WriteOutcome::Written
                &&& final(self).ticker == old(self).ticker + 1
                &&& final(self).ring.contents() == old(self).ring.contents().push(
                    spec_message_bytes(
                        old(self).ticker as nat,
                        old(self).ring.spec_slot_size() as nat,
                    ),
                )
                &&& records_quad(
                    old(self).producer_recorder@,
                    final(self).producer_recorder@,
                    TimestampTag::WriteSyncStart,
                    TimestampTag::WriteSyncEnd,
                    TimestampTag::WriteStart,
                    TimestampTag::WriteEnd,
                    true,
                    old(self).ticker,
                )
            },
            old(self).ring.spec_is_full() && old(self).ring.spec_stopped() ==> outcome
                == WriteOutcome::Stopped,
            old(self).ring.spec_is_full() && !old(self).ring.spec_stopped() ==> outcome
                == WriteOutcome::WouldBlock,
            old(self).ring.spec_is_full() ==> *final(self) == *old(self),
            final(self).ring.config_unchanged(&old(self).ring),
            final(self).expected == old(self).expected,
            final(self).data_size == old(self).data_size,
            final(self).sync == old(self).sync,
            final(self).consumer_recorder@ == old(self).consumer_recorder@,
            final(self).channel == old(self).channel,
    {
        if self.ring.is_full() {
            if self.ring.is_stopped() {
                WriteOutcome::Stopped
            } else {
                WriteOutcome::WouldBlock
            }
        } else {
            let t = self.ticker;
            let ghost s0 = self.producer_recorder@;
            self.producer_recorder.record(TimestampTag::WriteSyncStart, true, t);
            let ghost s1 = self.producer_recorder@;
            self.producer_recorder.record(TimestampTag::WriteSyncEnd, true, t);
            let ghost s2 = self.producer_recorder@;
            let slot_size = self.ring.slot_size();
            proof {
                lemma_decimal_len_u64(t);
            }
            let msg = Message::from_msgid_with_size(t, slot_size);
            self.producer_recorder.record(TimestampTag::WriteStart, true, t);
            let ghost s3 = self.producer_recorder@;
            let _published = self.ring.try_write(msg.as_bytes());
            self.producer_recorder.record(TimestampTag::WriteEnd, true, t);
            let ghost s4 = self.producer_recorder@;
            self.ticker = t + 1;
            proof {
                let pre = *old(self);
                let n = pre.ring.contents().len() as int;
                assert forall|k: int| 0 <= k < self.ring.contents().len() implies #[trigger] self.ring.contents()[k]
                    == spec_message_bytes(
                    (self.expected + k) as nat,
                    self.ring.spec_slot_size() as nat,
                ) by {
                    if k < n {
                        assert(pre.ring.contents()[k] == spec_message_bytes(
                            (pre.expected + k) as nat,
                            pre.ring.spec_slot_size() as nat,
                        ));
                    }
                }
                assert(s1[s0.len() as int] == s1.last());
                assert(s2.take(s1.len() as int) == s1);
                assert(s2[s0.len() as int] == s1[s0.len() as int]);
                assert(s3.take(s2.len() as int) == s2);
                assert(s3[s0.len() as int] == s2[s0.len() as int]);
                assert(s3[s0.len() as int + 1] == s2[s0.len() as int + 1]);
                assert(s4.take(s3.len() as int) == s3);
                assert(s4[s0.len() as int] == s3[s0.len() as int]);
                assert(s4[s0.len() as int + 1] == s3[s0.len() as int + 1]);
                assert(s4[s0.len() as int + 2] == s3[s0.len() as int + 2]);
                assert(s4.take(s0.len() as int) =~= s0);
            }
            WriteOutcome::Written
        }
    }

    /// One iteration of the consumer's loop.
    ///
    /// If no head advance is observable the step reads nothing. Otherwise it
    /// brackets its cursor sync and its payload copy with `ReadSync*`/
    /// `Read*` entries, copies the oldest unread payload into `buf`,
    /// advances the tail past it, and validates the embedded ordinal against
    /// the one it expects — which, under the session invariant, always
    /// matches.
    pub fn consumer_step(&mut self, buf: &mut Vec<u8>) -> (outcome: ReadOutcome)
        requires
            old(self).wf(),
            old(self).data_size + old(self).ring.spec_slot_size() <= usize::MAX,
        ensures
            final(self).wf(),
            old(self).ring.spec_is_empty() ==> {
                &&& outcome == ReadOutcome::ReadWouldBlock
                &&& *final(self) == *old(self)
                &&& *final(buf) == *old(buf)
            },
            !old(self).ring.spec_is_empty() ==> {
                &&& outcome == ReadOutcome::ReadMessage
                &&& final(buf)@ == old(self).ring.contents()[0]
                &&& final(buf)@ == spec_message_bytes(
                    old(self).expected as nat,
                    old(self).ring.spec_slot_size() as nat,
                )
                &&& final(self).expected == old(self).expected + 1
                &&& final(self).ring.contents() == old(self).ring.contents().drop_first()
                &&& final(self).data_size == old(self).data_size + old(self).ring.spec_slot_size()
                &&& final(self).sync == old(self).sync
                &&& records_quad(
                    old(self).consumer_recorder@,
                    final(self).consumer_recorder@,
                    TimestampTag::ReadSyncStart,
                    TimestampTag::ReadSyncEnd,
                    TimestampTag::ReadStart,
                    TimestampTag::ReadEnd,
                    false,
                    old(self).expected,
                )
            },
            final(self).ring.config_unchanged(&old(self).ring),
            final(self).ticker == old(self).ticker,
            final(self).producer_recorder@ == old(self).producer_recorder@,
            final(self).channel == old(self).channel,
    {
        if self.ring.is_empty() {
            return ReadOutcome::ReadWouldBlock;
        }
        let e = self.expected;
        let ghost s0 = self.consumer_recorder@;
        self.consumer_recorder.record(TimestampTag::ReadSyncStart, false, e);
        let ghost s1 = self.consumer_recorder@;
        self.consumer_recorder.record(TimestampTag::ReadSyncEnd, false, e);
        let ghost s2 = self.consumer_recorder@;
        self.consumer_recorder.record(TimestampTag::ReadStart, false, e);
        let ghost s3 = self.consumer_recorder@;
        let _len = self.ring.try_read(buf);
        self.consumer_recorder.record(TimestampTag::ReadEnd, false, e);
        let ghost s4 = self.consumer_recorder@;
        proof {
            let pre = *old(self);
            pre.ring.lemma_contents_cursors();
            assert(pre.ring.contents()[0] == spec_message_bytes(
                pre.expected as nat,
                pre.ring.spec_slot_size() as nat,
            ));
            lemma_decimal_len_u64(e);
            lemma_parse_message_bytes(e as nat, pre.ring.spec_slot_size() as nat);
        }
        let slot_size = self.ring.slot_size();
        match check_payload(buf.as_slice(), e) {
            Ok(()) => {
                self.data_size = self.data_size + slot_size;
                self.expected = e + 1;
                proof {
                    let pre = *old(self);
                    let n = self.ring.contents().len() as int;
                    assert forall|k: int| 0 <= k < n implies #[trigger] self.ring.contents()[k]
                        == spec_message_bytes(
                        (self.expected + k) as nat,
                        self.ring.spec_slot_size() as nat,
                    ) by {
                        assert(self.ring.contents() == pre.ring.contents().drop_first());
                        assert(self.ring.contents()[k] == pre.ring.contents()[k + 1]);
                        assert(pre.ring.contents()[k + 1] == spec_message_bytes(
                            (pre.expected + (k + 1)) as nat,
                            pre.ring.spec_slot_size() as nat,
                        ));
                    }
                    assert(s1[s0.len() as int] == s1.last());
                    assert(s2.take(s1.len() as int) == s1);
                    assert(s2[s0.len() as int] == s1[s0.len() as int]);
                    assert(s3.take(s2.len() as int) == s2);
                    assert(s3[s0.len() as int] == s2[s0.len() as int]);
                    assert(s3[s0.len() as int + 1] == s2[s0.len() as int + 1]);
                    assert(s4.take(s3.len() as int) == s3);
                    assert(s4[s0.len() as int] == s3[s0.len() as int]);
                    assert(s4[s0.len() as int + 1] == s3[s0.len() as int + 1]);
                    assert(s4[s0.len() as int + 2] == s3[s0.len() as int + 2]);
                    assert(s4.take(s0.len() as int) =~= s0);
                }
                ReadOutcome::ReadMessage
            },
            Err(_) => {
                self.sync = false;
                ReadOutcome::ReadMismatch
            },
        }
    }
}

/// Runs a whole measurement session in one execution context: `msg_num`
/// messages are produced, consumed and validated, then the producer's trace
/// is fetched over the control channel and merged into the consumer's, and
/// the stop signal is raised on the release path.
///
/// On success the consumer reports `sync` true and exactly
/// `msg_num * slot_size` payload bytes, with four producer-side and four
/// consumer-side entries recorded per message. Fails with `MappingFailure`
/// exactly when the shared region would not fit the machine.
pub fn run_session(
    slot_size: usize,
    slot_count: usize,
    header_bytes: usize,
    msg_num: usize,
    strategy: SyncStrategy,
) -> (r: Result<Metrics, MappingFailure>)
    requires
        slot_size >= 21,
        slot_count >= 2,
        header_bytes >= 16,
        msg_num * slot_size <= usize::MAX,
        msg_num < u64::MAX,
        8 * msg_num <= u32::MAX,
    ensures
        r is Ok <==> header_bytes + slot_size * slot_count <= usize::MAX,
        r matches Ok(m) ==> {
            &&& m.sync
            &&& m.data_size == msg_num * slot_size
            &&& m.recorder@.len() == 8 * msg_num
        },
{
    let mut session = match Session::new(slot_size, slot_count, header_bytes, strategy) {
        Ok(s) => s,
        Err(e) => {
            return Err(e);
        },
    };
    let mut buf: Vec<u8> = Vec::new();
    let mut produced: usize = 0;
    let mut consumed: usize = 0;
    while consumed < msg_num
        invariant
            consumed == produced,
            produced <= msg_num,
            slot_count >= 2,
            msg_num * slot_size <= usize::MAX,
            msg_num < u64::MAX,
            session.wf(),
            session.ring.spec_slot_size() == slot_size,
            session.ring.spec_slot_count() == slot_count,
            session.ring.contents().len() == 0,
            session.ticker == produced,
            session.expected == consumed,
            session.data_size == consumed * slot_size,
            session.sync,
            session.producer_recorder@.len() == 4 * produced,
            session.consumer_recorder@.len() == 4 * consumed,
        decreases msg_num - consumed,
    {
        // the producer runs ahead until the ring fills or the workload ends
        while produced < msg_num && !session.ring.is_full()
            invariant
                consumed <= produced <= msg_num,
                slot_count >= 2,
                msg_num < u64::MAX,
                session.wf(),
                session.ring.spec_slot_size() == slot_size,
                session.ring.spec_slot_count() == slot_count,
                session.ring.contents().len() == produced - consumed,
                session.ticker == produced,
                session.expected == consumed,
                session.data_size == consumed * slot_size,
                session.sync,
                session.producer_recorder@.len() == 4 * produced,
                session.consumer_recorder@.len() == 4 * consumed,
            decreases msg_num - produced,
        {
            let _w = session.producer_step();
            produced += 1;
        }
        proof {
            // the fill phase published at least one message: had the ring
            // stayed empty it would be neither full nor done
            session.ring.lemma_contents_cursors();
        }
        // the consumer drains everything the producer published
        while !session.ring.is_empty()
            invariant
                consumed <= produced <= msg_num,
                slot_count >= 2,
                msg_num * slot_size <= usize::MAX,
                msg_num < u64::MAX,
                session.wf(),
                session.ring.spec_slot_size() == slot_size,
                session.ring.spec_slot_count() == slot_count,
                session.ring.contents().len() == produced - consumed,
                session.ticker == produced,
                session.expected == consumed,
                session.data_size == consumed * slot_size,
                session.sync,
                session.producer_recorder@.len() == 4 * produced,
                session.consumer_recorder@.len() == 4 * consumed,
            decreases produced - consumed,
        {
            proof {
                session.ring.lemma_contents_cursors();
                assert((consumed + 1) * slot_size <= msg_num * slot_size) by (nonlinear_arith)
                    requires
                        consumed < msg_num,
                        slot_size >= 0,
                ;
                assert((consumed + 1) * slot_size == consumed * slot_size + slot_size)
                    by (nonlinear_arith);
            }
            let _c = session.consumer_step(&mut buf);
            consumed += 1;
        }
        proof {
            session.ring.lemma_contents_cursors();
        }
    }
    let _count_reply = session.channel.count_request(&session.producer_recorder);
    let fetched = session.channel.fetch_request(&session.producer_recorder);
    proof {
        crate::timestamp::lemma_encode_decode_round_trip(session.producer_recorder@);
        assert(session.producer_recorder@.take(session.producer_recorder@.len() as int)
            =~= session.producer_recorder@);
    }
    let producer_trace = match TimestampRecorder::decode(fetched.as_slice()) {
        Ok(entries) => entries,
        Err(_) => {
            return Err(MappingFailure);
        },
    };
    let mut recorder = session.consumer_recorder;
    recorder.extend(producer_trace.as_slice());
    session.consumer_recorder = TimestampRecorder::new();
    session.stop();
    Ok(Metrics { data_size: session.data_size, sync: session.sync, recorder })
}

} // verus!
